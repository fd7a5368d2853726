//! A snippet store with exact, tag, keyword and semantic retrieval, and the
//! catalog of the embedding models that the semantic mode can use.

pub mod cache;
pub mod device;
pub mod error;
pub mod model;
pub mod order;
pub mod output;
pub mod parse_paras;
pub mod path;
pub mod rank;
pub mod snip;
pub mod tag;
pub mod text;
pub mod unicode;
pub mod utils;
pub mod weights;
