pub mod cli;
pub mod frontend;
