pub mod ast;
pub mod ast_tree;
pub mod bigint;
pub mod builtin_functions;
pub mod comment;
pub mod cst;
pub mod error;
pub mod format;
pub mod hir;
pub mod hir_to_mir;
pub mod id;
pub mod lir;
pub mod mir;
pub mod module;
pub mod module_folding;
pub mod position;
pub mod seq_facts;
pub mod text;
