//! Syntax nodes: the plain values that the printer reads.
use vstd::prelude::*;

use crate::kind::{classify, is_preproc, is_preproc_kind, kind_of, Kind};
use crate::text::chars_vec;

verus! {

/// A syntax node as the printer sees it.
pub struct Syntax {
    /// The name that the grammar gives to the node.
    pub kind: Seq<char>,
    /// The source text that the node covers.
    pub text: Seq<char>,
    /// The text of the child in the field `name`.
    pub name: Option<Seq<char>>,
    /// The text of the child in the field `value`.
    pub value: Option<Seq<char>>,
    /// The children, in source order.
    pub children: Seq<Syntax>,
}

/// A syntax node that borrows its texts from the source.
pub struct SyntaxNode<'a> {
    /// The name that the grammar gives to the node.
    pub kind: &'a str,
    /// The source text that the node covers.
    pub text: &'a str,
    /// The text of the child in the field `name`.
    pub name: Option<&'a str>,
    /// The text of the child in the field `value`.
    pub value: Option<&'a str>,
    /// The children, in source order.
    pub children: Vec<SyntaxNode<'a>>,
}

/// The characters of an optional text.
pub open spec fn chars_of(text: Option<&str>) -> Option<Seq<char>> {
    match text {
        Some(t) => Some(t@),
        None => None,
    }
}

/// The node without its borrows.
pub open spec fn syntax_of<'a>(node: SyntaxNode<'a>) -> Syntax
    decreases node,
{
    Syntax {
        kind: node.kind@,
        text: node.text@,
        name: chars_of(node.name),
        value: chars_of(node.value),
        children: Seq::new(
            node.children@.len(),
            |i: int|
                if 0 <= i < node.children@.len() {
                    syntax_of(node.children@[i])
                } else {
                    arbitrary()
                },
        ),
    }
}

impl<'a> View for SyntaxNode<'a> {
    type V = Syntax;

    open spec fn view(&self) -> Syntax {
        syntax_of(*self)
    }
}

/// The nodes of a list.
pub open spec fn nodes_of<'a>(nodes: Seq<SyntaxNode<'a>>) -> Seq<Syntax> {
    Seq::new(nodes.len(), |i: int| nodes[i]@)
}

/// The children of a node are the nodes of its list of children.
pub proof fn lemma_children<'a>(node: SyntaxNode<'a>)
    ensures
        node@.children == nodes_of(node.children@),
{
    assert(node@.children =~= nodes_of(node.children@));
}

/// The kind of a node.
pub open spec fn node_kind(node: Syntax) -> Kind {
    kind_of(node.kind)
}

/// The kind of the sibling before a node.
pub open spec fn kind_before(nodes: Seq<Syntax>, i: int) -> Option<Kind> {
    if 0 < i <= nodes.len() {
        Some(node_kind(nodes[i - 1]))
    } else {
        None
    }
}

/// The kind of the sibling after a node.
pub open spec fn kind_after(nodes: Seq<Syntax>, i: int) -> Option<Kind> {
    if 0 <= i < nodes.len() - 1 {
        Some(node_kind(nodes[i + 1]))
    } else {
        None
    }
}

/// Whether a sibling follows a node and is no preprocessor directive.
pub open spec fn ends_directives(nodes: Seq<Syntax>, i: int) -> bool {
    match kind_after(nodes, i) {
        Some(kind) => !is_preproc_kind(kind),
        None => false,
    }
}

/// Whether a character takes one byte in UTF-8.
pub open spec fn is_one_byte(c: char) -> bool {
    c <= '\u{7f}'
}

/// Whether a node alone has the parts that its kind calls for: a directive, an
/// item or a cell list has a first child, that of a cell list is a token, and
/// a byte string has a bracket of one byte at each end.
pub open spec fn has_parts(node: Syntax) -> bool {
    match node_kind(node) {
        Kind::DtsiInclude
        | Kind::PreprocInclude
        | Kind::PreprocFunctionDef
        | Kind::PreprocIfdef
        | Kind::Node
        | Kind::Property
        | Kind::DeleteNode
        | Kind::DeleteProperty => node.children.len() > 0,
        Kind::IntegerCells => node.children.len() > 0 && node.children[0].children.len() == 0,
        Kind::ByteStringLiteral => node.text.len() >= 2 && is_one_byte(node.text[0]) && is_one_byte(
            node.text.last(),
        ),
        _ => true,
    }
}

/// Whether a node and all nodes below it have the parts that their kinds call
/// for.
pub open spec fn well_shaped(node: Syntax) -> bool
    decreases node,
{
    has_parts(node) && forall|i: int|
        0 <= i < node.children.len() ==> well_shaped(#[trigger] node.children[i])
}

/// Tells whether a node alone has the parts that its kind calls for.
fn check_parts(node: &SyntaxNode<'_>) -> (r: bool)
    ensures
        r == has_parts(node@),
{
    proof {
        lemma_children(*node);
    }
    match classify(node.kind) {
        Kind::DtsiInclude
        | Kind::PreprocInclude
        | Kind::PreprocFunctionDef
        | Kind::PreprocIfdef
        | Kind::Node
        | Kind::Property
        | Kind::DeleteNode
        | Kind::DeleteProperty => node.children.len() > 0,
        Kind::IntegerCells => {
            if node.children.len() == 0 {
                return false;
            }
            proof {
                lemma_children(node.children@[0]);
            }
            node.children[0].children.len() == 0
        },
        Kind::ByteStringLiteral => {
            let v = chars_vec(node.text);
            v.len() >= 2 && v[0] <= '\u{7f}' && v[v.len() - 1] <= '\u{7f}'
        },
        _ => true,
    }
}

/// Tells whether a node and all nodes below it have the parts that their
/// kinds call for.
pub fn is_well_shaped(node: &SyntaxNode<'_>) -> (r: bool)
    ensures
        r == well_shaped(node@),
    decreases node@,
{
    proof {
        lemma_children(*node);
    }
    if !check_parts(node) {
        return false;
    }
    let mut i: usize = 0;
    while i < node.children.len()
        invariant
            i <= node.children@.len(),
            has_parts(node@),
            node@.children == nodes_of(node.children@),
            forall|j: int| 0 <= j < i ==> well_shaped(#[trigger] node@.children[j]),
        decreases node.children@.len() - i,
    {
        assert(node@.children[i as int] == node.children@[i as int]@);
        if !is_well_shaped(&node.children[i]) {
            return false;
        }
        i += 1;
    }
    true
}

/// Tells the kind of the sibling before a node.
pub fn lookbehind(nodes: &Vec<SyntaxNode<'_>>, i: usize) -> (r: Option<Kind>)
    requires
        i < nodes@.len(),
    ensures
        r == kind_before(nodes_of(nodes@), i as int),
{
    if i > 0 {
        Some(classify(nodes[i - 1].kind))
    } else {
        None
    }
}

/// Tells the kind of the sibling after a node.
pub fn lookahead(nodes: &Vec<SyntaxNode<'_>>, i: usize) -> (r: Option<Kind>)
    requires
        i < nodes@.len(),
    ensures
        r == kind_after(nodes_of(nodes@), i as int),
{
    if i < nodes.len() - 1 {
        Some(classify(nodes[i + 1].kind))
    } else {
        None
    }
}

/// Tells whether a sibling follows a node and is no preprocessor directive.
pub fn is_last_directive(nodes: &Vec<SyntaxNode<'_>>, i: usize) -> (r: bool)
    requires
        i < nodes@.len(),
    ensures
        r == ends_directives(nodes_of(nodes@), i as int),
{
    match lookahead(nodes, i) {
        Some(kind) => !is_preproc(kind),
        None => false,
    }
}

} // verus!
