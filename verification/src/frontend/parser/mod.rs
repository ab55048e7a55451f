pub mod parse;
