#![allow(nonstandard_style)]

pub mod token;
pub mod scanner;
pub mod ast;
pub mod parser;
