//! Signals: what the engine notices in prices, volumes and news.
pub mod cross_asset;
pub mod engine;
pub mod sentiment;
pub mod technical;

pub use cross_asset::CrossAssetAnalyzer;
pub use engine::SignalEngine;
pub use sentiment::SentimentAnalyzer;
pub use technical::TechnicalAnalyzer;
