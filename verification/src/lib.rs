pub mod builder;
pub mod decimal;
pub mod documents;
pub mod double;
pub mod executor;
pub mod iterators;
pub mod keys;
pub mod knn;
pub mod matching;
pub mod plan;
mod shared;
pub mod value;
pub mod variants;
