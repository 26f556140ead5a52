//! Query parsing, matching and source checks for a semantic code-analysis tool.
pub mod text;
pub mod ci;
pub mod executor;
pub mod float;
pub mod hook;
pub mod output;
pub mod parser;
pub mod syntax_check;
