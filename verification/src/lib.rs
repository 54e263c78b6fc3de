pub mod error;
pub mod lexer;
pub mod token_handler;
pub mod data_model;
pub mod analysis_ctx;
pub mod model;
pub mod checker;
pub mod ast;
pub mod annotater;
pub mod grammar;
pub mod parser;
pub mod analyzer;
pub mod adjuster;
pub mod converter;
pub mod cstring;
pub mod transpiler;
pub mod scope;
pub mod stdlib;
pub mod engine;
