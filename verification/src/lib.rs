pub mod btc;
pub mod canister;
pub mod codec;
pub mod decimal;
pub mod expiry;
pub mod redblack;
pub mod rune_trx;
pub mod types;
pub mod utils;
