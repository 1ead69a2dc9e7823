//! Structural generation of Python source code.
//!
//! The crate holds an in-memory model of a small Python subset that renders
//! itself as indented text, a package tree that flattens into output files,
//! a registry of conversion rules keyed by role and type tags, and a compiler
//! for quasi-quoted templates that build syntax-model nodes.
use vstd::prelude::*;

pub mod dispatch;
pub mod lexer;
pub mod package;
pub mod parser;
pub mod status;
pub mod syntax;
pub mod template;

pub use dispatch::{DispatchError, Role, Rule, RuleKey, RuleSet};
pub use lexer::{TemplateError, TemplateErrorKind, TokenKind};
pub use package::{Module, OutputFile, Package};
pub use status::{StatusCodes, StatusModuleMaker};
pub use syntax::{Assignment, Block, Expression, FunctionDefinition, IfElse, Return, Statement};
pub use template::{SlotKind, Substitution, Template};

verus! {

} // verus!
