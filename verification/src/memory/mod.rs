pub mod bm25;
pub mod markdown;
