pub mod clause;
pub mod evaluate;
pub mod format;
pub mod grammar;
pub mod lexer;
pub mod mutate;
pub mod number;
pub mod operator;
pub mod order;
pub mod parser;
pub mod path;
pub mod roundtrip;
pub mod statements;
pub mod text;
pub mod value;
pub mod words;
