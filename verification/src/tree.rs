//! Parsing with the tree-sitter grammar for Devicetree.
use vstd::prelude::*;
use vstd::string::*;
use vstd::utf8::*;

use crate::syntax::{lemma_children, Syntax, SyntaxNode};

verus! {

/// What a node of a tree-sitter tree holds.
pub struct Parsed {
    /// The name that the grammar gives to the node.
    pub kind: Seq<char>,
    /// The byte of the source where the node starts.
    pub start: int,
    /// The byte of the source behind the end of the node.
    pub end: int,
    /// Where the first child with each field name starts and ends.
    pub fields: Map<Seq<char>, (int, int)>,
    /// The children, in source order.
    pub children: Seq<Parsed>,
}

/// `tree_sitter::Tree`: a syntax tree. Nothing is claimed of it here.
#[verifier::external_type_specification]
#[verifier::external_body]
pub struct ExTree(tree_sitter::Tree);

/// `tree_sitter::Node`: a node of a syntax tree. Nothing is claimed of it here.
#[verifier::external_type_specification]
#[verifier::external_body]
pub struct ExNode<'tree>(tree_sitter::Node<'tree>);

/// What the root of the tree holds that `tree_sitter::Parser::parse` makes of
/// a source with the grammar of `tree_sitter_devicetree`, where it makes one.
pub uninterp spec fn parse_result(source: Seq<char>) -> Option<Parsed>;

/// What the root of a tree holds.
pub uninterp spec fn tree_content(tree: tree_sitter::Tree) -> Parsed;

/// What a node holds.
pub uninterp spec fn node_content(node: tree_sitter::Node<'_>) -> Parsed;

/// Calls `tree_sitter::Parser::parse` on a new parser with the language of
/// `tree_sitter_devicetree`. Claims that the result rests on the source alone:
/// whether there is a tree, and what its root holds.
#[verifier::external_body]
pub(crate) fn parse(source: &str) -> (tree: Option<tree_sitter::Tree>)
    ensures
        match tree {
            Some(t) => parse_result(source@) == Some(tree_content(t)),
            None => parse_result(source@) is None,
        },
{
    let mut parser = tree_sitter::Parser::new();
    parser.set_language(&tree_sitter_devicetree::LANGUAGE.into()).ok()?;
    parser.parse(source, None)
}

/// `tree_sitter::Tree::root_node` gives the root of the tree.
pub assume_specification[ tree_sitter::Tree::root_node ](tree: &tree_sitter::Tree) -> (root:
    tree_sitter::Node<'_>)
    ensures
        node_content(root) == tree_content(*tree),
;

/// `tree_sitter::Node::kind` gives the name of the node in the grammar.
pub assume_specification<'tree>[ tree_sitter::Node::<'tree>::kind ](
    node: &tree_sitter::Node<'tree>,
) -> (kind: &'tree str)
    ensures
        kind@ == node_content(*node).kind,
;

/// `tree_sitter::Node::start_byte` gives the byte where the node starts.
pub assume_specification<'tree>[ tree_sitter::Node::<'tree>::start_byte ](
    node: &tree_sitter::Node<'tree>,
) -> (start: usize)
    ensures
        start == node_content(*node).start,
;

/// `tree_sitter::Node::end_byte` gives the byte behind the end of the node.
pub assume_specification<'tree>[ tree_sitter::Node::<'tree>::end_byte ](
    node: &tree_sitter::Node<'tree>,
) -> (end: usize)
    ensures
        end == node_content(*node).end,
;

/// `tree_sitter::Node::child_count` counts the children.
pub assume_specification<'tree>[ tree_sitter::Node::<'tree>::child_count ](
    node: &tree_sitter::Node<'tree>,
) -> (count: u32)
    ensures
        count == node_content(*node).children.len(),
;

/// `tree_sitter::Node::child` gives the child at an index, where there is one.
pub assume_specification<'tree>[ tree_sitter::Node::<'tree>::child ](
    node: &tree_sitter::Node<'tree>,
    i: u32,
) -> (child: Option<tree_sitter::Node<'tree>>)
    ensures
        match child {
            Some(c) => i < node_content(*node).children.len() && node_content(c) == node_content(
                *node,
            ).children[i as int],
            None => i >= node_content(*node).children.len(),
        },
;

/// Calls `tree_sitter::Node::child_by_field_name`, which gives the first child
/// with a field name, where there is one.
#[verifier::external_body]
fn child_by_field_name<'tree>(node: &tree_sitter::Node<'tree>, field: &str) -> (child: Option<
    tree_sitter::Node<'tree>,
>)
    ensures
        match child {
            Some(c) => node_content(*node).fields.contains_key(field@) && node_content(
                *node,
            ).fields[field@] == (node_content(c).start, node_content(c).end),
            None => !node_content(*node).fields.contains_key(field@),
        },
{
    node.child_by_field_name(field)
}

/// Calls `tree_sitter::Node::utf8_text`, which gives the bytes of the source
/// that the node spans as a text, where they are valid UTF-8. It panics where
/// the span is no range of the source.
#[verifier::external_body]
fn utf8_text<'a>(node: &tree_sitter::Node<'_>, source: &'a str) -> (text: Option<&'a str>)
    requires
        0 <= node_content(*node).start <= node_content(*node).end <= source.spec_bytes().len(),
    ensures
        match text {
            Some(t) => t.spec_bytes() == source.spec_bytes().subrange(
                node_content(*node).start,
                node_content(*node).end,
            ),
            None => !valid_utf8(
                source.spec_bytes().subrange(node_content(*node).start, node_content(*node).end),
            ),
        },
{
    node.utf8_text(source.as_bytes()).ok()
}

/// Whether a span is a range of a source of a length.
pub open spec fn is_range(span: (int, int), len: nat) -> bool {
    0 <= span.0 <= span.1 <= len
}

/// Whether a field, where a node has it, spans a range of the source.
pub open spec fn field_is_range(node: Parsed, field: Seq<char>, len: nat) -> bool {
    node.fields.contains_key(field) ==> is_range(node.fields[field], len)
}

/// Whether a node and all nodes below it span ranges of a source of a length.
pub open spec fn is_within(node: Parsed, len: nat) -> bool
    decreases node,
{
    &&& is_range((node.start, node.end), len)
    &&& field_is_range(node, "name"@, len)
    &&& field_is_range(node, "value"@, len)
    &&& forall|i: int|
        0 <= i < node.children.len() ==> is_within(#[trigger] node.children[i], len)
}

/// The text of a span, empty where its bytes are not valid UTF-8.
pub open spec fn span_text(bytes: Seq<u8>, span: (int, int)) -> Seq<char> {
    if valid_utf8(bytes.subrange(span.0, span.1)) {
        decode_utf8(bytes.subrange(span.0, span.1))
    } else {
        seq![]
    }
}

/// The text of a field, where a node has it.
pub open spec fn field_text(bytes: Seq<u8>, node: Parsed, field: Seq<char>) -> Option<Seq<char>> {
    if node.fields.contains_key(field) {
        Some(span_text(bytes, node.fields[field]))
    } else {
        None
    }
}

/// A node with the texts of its spans in place of the spans.
pub open spec fn resolved(bytes: Seq<u8>, node: Parsed) -> Syntax
    decreases node,
{
    Syntax {
        kind: node.kind,
        text: span_text(bytes, (node.start, node.end)),
        name: field_text(bytes, node, "name"@),
        value: field_text(bytes, node, "value"@),
        children: Seq::new(
            node.children.len(),
            |i: int|
                if 0 <= i < node.children.len() {
                    resolved(bytes, node.children[i])
                } else {
                    arbitrary()
                },
        ),
    }
}

/// The syntax tree of a source, where the parser makes one that spans ranges
/// of it.
pub open spec fn source_syntax(source: Seq<char>) -> Option<Syntax> {
    match parse_result(source) {
        Some(root) => if is_within(root, encode_utf8(source).len()) {
            Some(resolved(encode_utf8(source), root))
        } else {
            None
        },
        None => None,
    }
}

/// Reads the text that a node spans, where it spans a range of the source.
fn node_text<'a>(node: &tree_sitter::Node<'_>, source: &'a str) -> (text: Option<&'a str>)
    ensures
        ({
            let span = (node_content(*node).start, node_content(*node).end);
            match text {
                Some(t) => is_range(span, encode_utf8(source@).len()) && t@ == span_text(
                    encode_utf8(source@),
                    span,
                ),
                None => !is_range(span, encode_utf8(source@).len()),
            }
        }),
{
    let start: usize = node.start_byte();
    let end: usize = node.end_byte();
    if start > end || end > source.as_bytes().len() {
        return None;
    }
    match utf8_text(node, source) {
        Some(t) => {
            proof {
                encode_utf8_valid_utf8(t@);
                encode_utf8_decode_utf8(t@);
            }
            Some(t)
        },
        None => {
            proof {
                reveal_strlit("");
            }
            assert(""@ =~= seq![]);
            Some("")
        },
    }
}

/// Reads a node and all nodes below it, where they span ranges of the source.
pub(crate) fn read<'a>(node: tree_sitter::Node<'a>, source: &'a str) -> (r: Option<SyntaxNode<'a>>)
    ensures
        match r {
            Some(n) => is_within(node_content(node), encode_utf8(source@).len()) && n@ == resolved(
                encode_utf8(source@),
                node_content(node),
            ),
            None => !is_within(node_content(node), encode_utf8(source@).len()),
        },
    decreases node_content(node),
{
    let ghost bytes = encode_utf8(source@);
    let ghost content = node_content(node);
    let text = match node_text(&node, source) {
        Some(t) => t,
        None => return None,
    };
    let name = match child_by_field_name(&node, "name") {
        Some(child) => match node_text(&child, source) {
            Some(t) => Some(t),
            None => return None,
        },
        None => None,
    };
    let value = match child_by_field_name(&node, "value") {
        Some(child) => match node_text(&child, source) {
            Some(t) => Some(t),
            None => return None,
        },
        None => None,
    };
    let count: u32 = node.child_count();
    let mut children: Vec<SyntaxNode<'a>> = Vec::new();
    let mut i: u32 = 0;
    while i < count
        invariant
            bytes == encode_utf8(source@),
            content == node_content(node),
            count == content.children.len(),
            i <= count,
            children@.len() == i,
            forall|j: int|
                0 <= j < i ==> is_within(#[trigger] content.children[j], bytes.len())
                    && children@[j]@ == resolved(bytes, content.children[j]),
        decreases count - i,
    {
        match node.child(i) {
            Some(child) => match read(child, source) {
                Some(n) => children.push(n),
                None => return None,
            },
            None => return None,
        }
        i += 1;
    }
    let r = SyntaxNode { kind: node.kind(), text, name, value, children };
    proof {
        lemma_children(r);
        assert(r@.children =~= resolved(bytes, content).children);
    }
    Some(r)
}

} // verus!
