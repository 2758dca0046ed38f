//! Strategies: what turns signals into orders.
pub mod crypto_vol_equity;
pub mod framework;
pub mod holdings;
pub mod mean_reversion;
pub mod orders;

pub use crypto_vol_equity::CryptoVolLeadsEquity;
pub use framework::Strategy;
pub use mean_reversion::MeanReversion;
