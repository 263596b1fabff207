use vstd::prelude::*;

pub mod env_map;
pub mod error;
pub mod missing;
pub mod parser;
pub mod scanner;
pub mod text;
pub mod validator;
