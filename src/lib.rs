//! An inverted index from command names to the environment modules that
//! provide them, kept in step with the module tree by a differential sync.

pub mod text;
pub mod crawl;
pub mod analysis;
pub mod db;
pub mod engine;
pub mod model;
