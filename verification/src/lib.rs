pub mod batches;
pub mod geometry;
pub mod parse;
pub mod restaurant;
pub mod search;
pub mod text;
