//! The syntax tree provider at the library's edge: the external grammar
//! parses the text, and its tree is converted node for node into the
//! library's own model. Everything after this boundary is verified
//! against the model alone.

use vstd::prelude::*;
use crate::error::SelectError;
use crate::select::NixFile;
use crate::tree::NodeKind;
use crate::tree::SyntaxNode;

verus! {

#[verifier::external_type_specification]
#[verifier::external_body]
pub struct ExTsNode<'a>(tree_sitter::Node<'a>);

/// The name of what the external parser makes of a text. The grammar is
/// fixed when the library is built, so the tree — or the refusal — is a
/// function of the input bytes alone; stating the parse itself would mean
/// writing out the grammar, which nothing here could hold to the outside
/// code.
pub uninterp spec fn parse_of(src: Seq<u8>) -> Option<SyntaxNode>;

/// Relies on tree_sitter::Node::kind: the grammar's name for a node,
/// mapped one arm per inspected name onto the library's closed kind set.
#[verifier::external_body]
fn kind_of_node(node: &tree_sitter::Node<'_>) -> NodeKind {
    match node.kind() {
        "binding" => NodeKind::Binding,
        "attrpath" => NodeKind::Attrpath,
        "identifier" => NodeKind::Identifier,
        "string_expression" => NodeKind::StringExpression,
        "string_fragment" => NodeKind::StringFragment,
        "with_expression" => NodeKind::WithExpression,
        "let_expression" => NodeKind::LetExpression,
        "binding_set" => NodeKind::BindingSet,
        "list_expression" => NodeKind::ListExpression,
        "comment" => NodeKind::Comment,
        _ => NodeKind::Other,
    }
}

/// Relies on tree_sitter::Node: start_byte and end_byte give the node's
/// byte range and named_children the named child nodes, in source order.
#[verifier::external_body]
fn convert_node(node: &tree_sitter::Node<'_>) -> SyntaxNode {
    let mut children: Vec<SyntaxNode> = Vec::new();
    let mut cursor = node.walk();
    for child in node.named_children(&mut cursor) {
        children.push(convert_node(&child));
    }
    SyntaxNode {
        kind: kind_of_node(node),
        start: node.start_byte(),
        end: node.end_byte(),
        children,
    }
}

/// Relies on tree_sitter::Parser with the grammar of tree_sitter_nix:
/// parsing depends on the input bytes and the built-in grammar alone, so
/// the outcome is named `parse_of`; the tree it yields carries byte
/// ranges into the input text, each child nested inside its parent and
/// siblings ordered left to right without overlap; a text that does not
/// conform to the grammar is reported through an error node. Returns the
/// converted root, or `None` when the parser fails or reports an error.
#[verifier::external_body]
fn parse_with_grammar(src: &Vec<u8>) -> (r: Option<SyntaxNode>)
    ensures
        r == parse_of(src@),
        match r {
            Some(t) => t.wf(src@.len()),
            None => true,
        },
{
    let mut parser = tree_sitter::Parser::new();
    parser.set_language(&tree_sitter_nix::LANGUAGE.into()).ok()?;
    let tree = parser.parse(src.as_slice(), None)?;
    if tree.root_node().has_error() {
        return None;
    }
    Some(convert_node(&tree.root_node()))
}

/// Parses a document into a selection session: the tree the external
/// grammar makes of the text, `ParseError` exactly when it makes none
/// (the text does not conform); on success the session owns the text
/// and the well-formed tree.
pub fn parse_document(src: Vec<u8>) -> (r: Result<NixFile, SelectError>)
    ensures
        r is Ok <==> parse_of(src@) is Some,
        r is Ok ==> parse_of(src@) == Some(r->Ok_0.tree),
        r is Ok ==> r->Ok_0.wf() && r->Ok_0.contents@ == src@,
        r is Err ==> r->Err_0 == SelectError::ParseError,
{
    match parse_with_grammar(&src) {
        Some(tree) => Ok(NixFile::from_parts(src, tree)),
        None => Err(SelectError::ParseError),
    }
}

} // verus!
