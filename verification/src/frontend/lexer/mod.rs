pub mod token;
pub mod pos;
pub mod unicode;
pub mod rules;
pub mod lex;
pub mod lines;
pub mod valid;
pub mod stream;
pub mod spelled;
pub mod shapes;
