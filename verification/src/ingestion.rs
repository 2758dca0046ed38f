//! Market data and news as they come in.
pub mod crypto;
pub mod finnhub;
pub mod normalizer;

pub use crypto::CryptoFeed;
pub use finnhub::FinnhubFeed;
pub use normalizer::Normalizer;
