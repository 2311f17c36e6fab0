//! A code-aware symbol index: a per-workspace searchable store of the
//! declarations and usages found in source files, parsed by a
//! language-specific grammar.
//!
//! Files enter through [`ast_index::AstIndex::add_or_update`], which parses
//! the text, links each usage to its innermost enclosing declaration, and
//! replaces the file's contribution to two global maps and two per-file
//! compiled keysets. Queries run a case-insensitive regex automaton over the
//! keysets, rerank the candidates by string similarity, and return the best
//! declarations with the text they cover.

pub mod ast_index;
pub mod at_params;
pub mod call_validation;
pub mod cpp;
pub mod keyset;
pub mod linker;
pub mod parse_tree;
pub mod records;
pub mod score;
pub mod strkit;
