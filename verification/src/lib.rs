pub mod command_parser;
pub mod error;
pub mod execute;
pub mod laws;
pub mod model;
pub mod parse;
pub mod pattern;
pub mod string_utils;
pub mod text;
