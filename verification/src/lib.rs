//! A source-to-source refactoring engine for Python syntax trees.
//!
//! The crate models a parsed module as a closed set of statement and
//! expression variants, offers read-only structural queries over that model,
//! renders the model back to canonical source text, and applies tracked,
//! atomic tree edits through a refactoring session that keeps an append-only
//! change log.

pub mod ast;
pub mod error;
pub mod nodes;
pub mod refactor;
pub mod strutil;
pub mod unparse;

pub use ast::AssignmentNode;
pub use ast::AstNode;
pub use ast::AstNodeRef;
pub use ast::CallNode;
pub use ast::ImportInfo;
pub use ast::ImportNode;
pub use ast::PythonAst;
pub use ast::SourceLocation;
pub use ast::TryExceptNode;
pub use error::PyRustorError;
pub use error::Result;
pub use nodes::ClassDef;
pub use nodes::ExceptHandler;
pub use nodes::Expr;
pub use nodes::FunctionDef;
pub use nodes::ImportAlias;
pub use nodes::Module;
pub use nodes::Operator;
pub use nodes::Stmt;
pub use refactor::ChangeType;
pub use refactor::Refactor;
pub use refactor::RefactorChange;
pub use unparse::Formatter;
