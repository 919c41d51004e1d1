pub mod bindings;
pub mod scanner;
pub mod type_checker;
pub mod typed;
pub mod untyped;

pub use crate::language::{gen_ast, run};
pub use type_checker::{resolve, type_check};
