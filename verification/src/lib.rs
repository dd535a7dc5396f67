use vstd::prelude::*;

pub mod interner;
pub mod env;
pub mod registry;
pub mod ir_types;
pub mod qual_type;
pub mod raw_type;
pub mod span;
pub mod token;
pub mod lexer;
pub mod ops;
pub mod hir;
pub mod error;
pub mod parser;
pub mod label;
pub mod basicblock;
pub mod function;
pub mod stir;
pub mod codegen;
pub mod literal;
pub mod module;
pub mod sema;
pub mod types;
pub mod text;
pub mod config;
pub mod driver;
pub mod tir;
pub mod translation_unit;
