pub mod document;
pub mod merge;
