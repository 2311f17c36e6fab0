use vstd::prelude::*;
use crate::records::RangeInfo;

verus! {

/// A parse-tree node, held as plain values: the grammar's node kind, the
/// source text the node covers, its extent, and its children in order.
pub struct ParseNode {
    pub kind: String,
    pub text: String,
    pub range: RangeInfo,
    pub children: Vec<ParseNode>,
}

/// What the C++ grammar produces for a source text; parsing is a
/// deterministic function of the text for a fixed grammar, so the result
/// carries a name. `None` stands for a failed parse.
pub uninterp spec fn cpp_parse(text: Seq<char>) -> Option<ParseNode>;

#[verifier::external_type_specification]
#[verifier::external_body]
pub struct ExTsParser(tree_sitter::Parser);

#[verifier::external_type_specification]
#[verifier::external_body]
pub struct ExTsNode<'a>(tree_sitter::Node<'a>);

/// The language-specific parser for C++ sources.
pub struct CppParser {
    pub parser: tree_sitter::Parser,
}

impl CppParser {
    /// Relies on tree_sitter::Parser::new and Parser::set_language with the
    /// tree_sitter_cpp grammar; `Err` comes only when the grammar's ABI
    /// version is incompatible with the linked tree_sitter runtime.
    #[verifier::external_body]
    pub fn new() -> (r: Result<CppParser, crate::records::AstError>)
    {
        let mut parser = tree_sitter::Parser::new();
        match parser.set_language(tree_sitter_cpp::language()) {
            Ok(()) => Ok(CppParser { parser }),
            Err(_) => Err(crate::records::AstError::UnsupportedLanguage),
        }
    }

    /// Relies on tree_sitter::Parser::parse, whose result for a fixed
    /// grammar depends on the source text alone; the converted tree is
    /// named `cpp_parse`. tree_sitter returns `None` only when no language
    /// is set, on cancellation, or on a timeout.
    #[verifier::external_body]
    pub fn parse_tree(&mut self, text: &str) -> (r: Option<ParseNode>)
        ensures
            r == cpp_parse(text@),
    {
        let tree = self.parser.parse(text, None)?;
        Some(convert_node(tree.root_node(), text))
    }
}

/// Backs `CppParser::parse_tree`: copies a tree_sitter node — the node kind,
/// covered text and positions that tree_sitter reports — into plain values,
/// child by child. Only `parse_tree` calls it.
#[verifier::external_body]
fn convert_node(node: tree_sitter::Node<'_>, src: &str) -> ParseNode {
    let mut children = Vec::new();
    for i in 0..node.child_count() {
        if let Some(c) = node.child(i) {
            children.push(convert_node(c, src));
        }
    }
    let (sp, ep) = (node.start_position(), node.end_position());
    let (start_byte, end_byte) = (node.start_byte(), node.end_byte());
    let range = RangeInfo { start_byte, end_byte, start_row: sp.row, start_col: sp.column, end_row: ep.row, end_col: ep.column };
    let kind = node.kind().to_string();
    let text = node.utf8_text(src.as_bytes()).unwrap_or("").to_string();
    ParseNode { kind, text, range, children }
}

} // verus!
