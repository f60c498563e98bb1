//! Ingestion of the historical trade data published by the Zhengzhou (CZCE) and
//! Dalian (DCE) commodity exchanges: text decoding, the two vendor formats, the
//! DCE download-link catalogue and the plan that loads a payload into the store.
pub mod ce;
pub mod cli;
pub mod czce;
pub mod date;
pub mod dce;
pub mod numeric;
pub mod text;
pub mod util;

pub use cli::Exchange;
