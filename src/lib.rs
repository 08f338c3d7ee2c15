pub mod format;
pub mod parse;
pub mod text;
pub mod tokenize;
