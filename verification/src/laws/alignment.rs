//! What the alignment of definitions leaves as it is: all but white space.
use vstd::prelude::*;
use vstd::string::*;

use crate::config::Config;
use crate::context::{deeper, inside, Context};
use crate::define::{
    aligned_block, aligned_line, aligned_lines, block_parts, continues_block, define_comment,
    define_head, define_parts, define_value, first_comment, name_width, plain_define,
    starts_block, value_width,
};
use crate::kind::Kind;
use crate::laws::defines::{law_split_covers_the_text, lemma_trimming};
use crate::laws::printing::is_same_place;
use crate::printer::{
    child_text, document, empty_page, formatted, outermost, printed, printed_define, printed_range,
    unhandled,
};
use crate::syntax::{kind_before, node_kind, well_shaped, Syntax};
use crate::text::{is_white, spaces, trimmed};
use crate::tree::source_syntax;
use crate::writer::Page;

verus! {

/// The text without its white space.
pub open spec fn inked(s: Seq<char>) -> Seq<char> {
    s.filter(|c: char| !is_white(c))
}

/// Texts that are joined lose their white space one by one.
broadcast proof fn lemma_inked_add(a: Seq<char>, b: Seq<char>)
    ensures
        #[trigger] inked(a + b) == inked(a) + inked(b),
{
    Seq::filter_distributes_over_add(a, b, |c: char| !is_white(c));
}

/// Nothing is left of white space.
proof fn lemma_inked_white(s: Seq<char>)
    requires
        forall|i: int| 0 <= i < s.len() ==> is_white(#[trigger] s[i]),
    ensures
        inked(s) == Seq::<char>::empty(),
    decreases s.len(),
{
    reveal(Seq::filter);
    if s.len() > 0 {
        lemma_inked_white(s.drop_last());
    }
}

/// Nothing is left of spaces.
broadcast proof fn lemma_inked_spaces(n: nat)
    ensures
        #[trigger] inked(spaces(n)) == Seq::<char>::empty(),
{
    lemma_inked_white(spaces(n));
}

/// Nothing is left of what stands between words and between lines.
proof fn lemma_inked_gaps()
    ensures
        inked(" "@) == Seq::<char>::empty(),
        inked("\n"@) == Seq::<char>::empty(),
        inked("  // "@) == inked("//"@),
{
    reveal_strlit(" ");
    reveal_strlit("\n");
    reveal_strlit("//");
    reveal_strlit("  // ");
    lemma_inked_white(" "@);
    lemma_inked_white("\n"@);
    assert("  // "@ =~= spaces(2) + "//"@ + spaces(1));
    lemma_inked_add(spaces(2) + "//"@, spaces(1));
    lemma_inked_add(spaces(2), "//"@);
    lemma_inked_spaces(2);
    lemma_inked_spaces(1);
}

/// Trimming takes away white space only.
broadcast proof fn lemma_inked_trimmed(s: Seq<char>)
    ensures
        #[trigger] inked(trimmed(s)) == inked(s),
{
    let (lead, tail) = lemma_trimming(s);
    lemma_inked_add(lead + trimmed(s), tail);
    lemma_inked_add(lead, trimmed(s));
    lemma_inked_white(lead);
    lemma_inked_white(tail);
}

/// Whether a comment in the raw text of a macro opens and holds white space
/// only.
pub open spec fn has_blank_comment(raw: Seq<char>) -> bool {
    (exists|k: int| first_comment(raw, k)) && define_comment(raw) is None
}

/// Whether a node, if it is a definition, has no blank comment.
pub open spec fn keeps_its_comment(node: Syntax) -> bool {
    node_kind(node) == Kind::PreprocDef ==> match node.value {
        Some(raw) => !has_blank_comment(raw),
        None => true,
    }
}

/// A definition without its white space: the word, the name and the text
/// behind it.
spec fn inked_define(node: Syntax) -> Seq<char> {
    inked("#define "@) + match node.name {
        Some(name) => inked(name),
        None => seq![],
    } + match node.value {
        Some(raw) => inked(raw),
        None => seq![],
    }
}

/// What a definition on its own holds but for white space.
proof fn lemma_inked_plain(node: Syntax, indent: nat)
    ensures
        inked(plain_define(node, indent)) == inked_define(node),
{
    broadcast use {lemma_inked_add, lemma_inked_spaces, lemma_inked_trimmed};

    lemma_inked_gaps();
    lemma_inked_white(Seq::<char>::empty());
    if let Some(raw) = node.value {
        if trimmed(raw).len() == 0 {
            assert(trimmed(raw) =~= Seq::<char>::empty());
        }
    }
    assert(inked(plain_define(node, indent)) =~= inked_define(node));
}

/// What the value and the comment of a macro hold but for white space.
proof fn lemma_inked_parts(raw: Seq<char>)
    requires
        !has_blank_comment(raw),
    ensures
        inked(raw) == inked(define_value(raw)) + match define_comment(raw) {
            Some(comment) => inked("//"@) + inked(comment),
            None => seq![],
        },
{
    broadcast use {lemma_inked_add, lemma_inked_trimmed};

    if exists|k: int| first_comment(raw, k) {
        let k = choose|k: int| first_comment(raw, k);
        law_split_covers_the_text(raw, k);
        assert(inked(raw) =~= inked(raw.take(k)) + (inked("//"@) + inked(raw.skip(k + 2))));
    } else {
        assert(inked(raw) =~= inked(define_value(raw)) + Seq::<char>::empty());
    }
}

/// An aligned line holds what the definition on its own holds, but for white
/// space.
pub proof fn law_alignment_keeps_a_define(
    node: Syntax,
    names: nat,
    values: nat,
    indent: nat,
    other: nat,
)
    requires
        node_kind(node) == Kind::PreprocDef,
        keeps_its_comment(node),
    ensures
        inked(aligned_line(define_parts(node), names, values, indent)) == inked(
            plain_define(node, other),
        ),
{
    broadcast use {lemma_inked_add, lemma_inked_spaces, lemma_inked_trimmed};

    lemma_inked_plain(node, other);
    lemma_inked_gaps();
    lemma_inked_white(Seq::<char>::empty());
    if let Some(raw) = node.value {
        lemma_inked_parts(raw);
    }
    let line = define_parts(node);
    assert(inked(line.name) == match node.name {
        Some(name) => inked(name),
        None => seq![],
    });
    assert(inked(define_head(line, names, indent)) =~= inked("#define "@) + inked(line.name));
    assert(inked(aligned_line(line, names, values, indent)) =~= inked_define(node));
}

/// The definitions from an index up to the first node that is none, each on its
/// own.
pub open spec fn plain_block(nodes: Seq<Syntax>, i: int, indent: nat) -> Seq<char>
    decreases nodes.len() - i,
{
    if 0 <= i < nodes.len() && node_kind(nodes[i]) == Kind::PreprocDef {
        plain_define(nodes[i], indent) + plain_block(nodes, i + 1, indent)
    } else {
        seq![]
    }
}

/// The lines of a block from an index on, behind those that stand before it.
proof fn lemma_inked_lines(
    nodes: Seq<Syntax>,
    i: int,
    m: nat,
    names: nat,
    values: nat,
    indent: nat,
    other: nat,
)
    requires
        0 <= i,
        m <= block_parts(nodes, i).len(),
        forall|j: int| i <= j < nodes.len() ==> keeps_its_comment(#[trigger] nodes[j]),
    ensures
        i + m <= nodes.len() || m == 0,
        block_parts(nodes, i + m) == block_parts(nodes, i).skip(m as int),
        inked(aligned_lines(block_parts(nodes, i), names, values, indent, m)) + inked(
            plain_block(nodes, i + m, other),
        ) == inked(plain_block(nodes, i, other)),
    decreases m,
{
    broadcast use lemma_inked_add;

    let lines = block_parts(nodes, i);
    lemma_inked_white(Seq::<char>::empty());
    if m > 0 {
        let k = (m - 1) as nat;
        lemma_inked_lines(nodes, i, k, names, values, indent, other);
        let node = nodes[i + k];
        assert(lines.skip(k as int).len() > 0);
        assert(lines[k as int] == lines.skip(k as int)[0]);
        assert(block_parts(nodes, i + k) == seq![define_parts(node)] + block_parts(
            nodes,
            i + k + 1,
        ));
        assert(block_parts(nodes, i + k).skip(1) =~= block_parts(nodes, i + m));
        assert(lines.skip(k as int).skip(1) =~= lines.skip(m as int));
        law_alignment_keeps_a_define(node, names, values, indent, other);
        let before = inked(aligned_lines(lines, names, values, indent, k));
        let line = inked(aligned_line(lines[k as int], names, values, indent));
        let rest = inked(plain_block(nodes, i + m, other));
        assert(before + line + rest =~= before + (line + rest));
    } else {
        assert(lines.skip(0) =~= lines);
    }
}

/// An aligned block holds what its definitions hold on their own, but for white
/// space.
pub proof fn law_alignment_keeps_a_block(nodes: Seq<Syntax>, i: int, indent: nat, other: nat)
    requires
        0 <= i,
        forall|j: int| i <= j < nodes.len() ==> keeps_its_comment(#[trigger] nodes[j]),
    ensures
        inked(aligned_block(block_parts(nodes, i), indent)) == inked(plain_block(nodes, i, other)),
{
    let lines = block_parts(nodes, i);
    let m = lines.len();
    lemma_inked_lines(nodes, i, m, name_width(lines), value_width(lines), indent, other);
    lemma_inked_white(Seq::<char>::empty());
    assert(block_parts(nodes, i + m).len() == 0);
    assert(plain_block(nodes, i + m, other) =~= seq![]);
}

/// From which index on the children of a node are printed one by one, where
/// they are.
pub open spec fn first_printed(node: Syntax) -> Option<int> {
    match node_kind(node) {
        Kind::PreprocIfdef => Some(2),
        Kind::Reference
        | Kind::Node
        | Kind::Property
        | Kind::DeleteNode
        | Kind::DeleteProperty
        | Kind::AngleClose
        | Kind::Other => Some(0),
        _ => None,
    }
}

/// Whether alignment only moves white space in a tree: no definition that is
/// printed has a blank comment, and the body of no conditional continues a block
/// that its name begins.
pub open spec fn aligns_cleanly(node: Syntax) -> bool
    decreases node,
{
    &&& keeps_its_comment(node)
    &&& match first_printed(node) {
        Some(first) => {
            &&& first < node.children.len() ==> !continues_block(node.children, first)
            &&& forall|i: int|
                first <= i < node.children.len() ==> aligns_cleanly(#[trigger] node.children[i])
        },
        None => true,
    }
}

/// The nodes that a document prints one by one: its own, or the document node
/// where it has none.
pub open spec fn printed_nodes(root: Syntax) -> Seq<Syntax> {
    if root.children.len() > 0 {
        root.children
    } else {
        seq![root]
    }
}

/// Whether alignment only moves white space in a document.
pub open spec fn document_aligns_cleanly(root: Syntax) -> bool {
    forall|i: int|
        0 <= i < printed_nodes(root).len() ==> aligns_cleanly(#[trigger] printed_nodes(root)[i])
}

/// What alignment prints ahead of an index: the rest of the block that the node
/// before it belongs to.
spec fn ahead(nodes: Seq<Syntax>, k: int) -> Seq<char> {
    if kind_before(nodes, k) == Some(Kind::PreprocDef) {
        inked(plain_block(nodes, k, 0))
    } else {
        seq![]
    }
}

/// Nothing is ahead of a node that is no definition.
proof fn lemma_nothing_ahead(nodes: Seq<Syntax>, k: int)
    requires
        k >= nodes.len() || node_kind(nodes[k]) != Kind::PreprocDef,
    ensures
        ahead(nodes, k) == Seq::<char>::empty(),
{
    lemma_inked_white(Seq::<char>::empty());
    assert(plain_block(nodes, k, 0) =~= seq![]);
}

/// A text adds what it holds but for white space.
broadcast proof fn lemma_inked_write(page: Page, text: Seq<char>)
    ensures
        #[trigger] inked(page.write(text).text) == inked(page.text) + inked(text),
{
    lemma_inked_add(page.text, text);
}

/// Indentation adds white space only.
broadcast proof fn lemma_inked_indent(page: Page, ctx: Context)
    ensures
        #[trigger] inked(page.indent(ctx).text) == inked(page.text),
{
    broadcast use {lemma_inked_write, lemma_inked_spaces};

    assert(inked(page.indent(ctx).text) =~= inked(page.text));
}

/// A newline adds white space only.
broadcast proof fn lemma_inked_newline(page: Page, condition: bool)
    ensures
        #[trigger] inked(page.newline_if(condition).text) == inked(page.text),
{
    broadcast use lemma_inked_write;

    lemma_inked_gaps();
    assert(inked(page.newline_if(condition).text) =~= inked(page.text));
}

/// A separation adds white space only.
broadcast proof fn lemma_inked_separate(page: Page)
    ensures
        #[trigger] inked(page.separate().text) == inked(page.text),
{
    broadcast use lemma_inked_write;

    lemma_inked_gaps();
    assert(inked(page.separate().text) =~= inked(page.text));
}

/// A definition, aligned and not: what is printed of its block is ahead of the
/// node behind it.
proof fn lemma_inked_define(
    nodes: Seq<Syntax>,
    i: int,
    a: Context,
    b: Context,
    p: Page,
    q: Page,
)
    requires
        0 <= i < nodes.len(),
        node_kind(nodes[i]) == Kind::PreprocDef,
        a.config.align_define,
        !b.config.align_define,
        forall|j: int| i <= j < nodes.len() ==> keeps_its_comment(#[trigger] nodes[j]),
        inked(p.text) == inked(q.text) + ahead(nodes, i),
    ensures
        inked(printed_define(nodes, i, a, p).text) == inked(printed_define(nodes, i, b, q).text)
            + ahead(nodes, i + 1),
{
    broadcast use {lemma_inked_add, lemma_inked_write, lemma_inked_newline};

    let line = inked(plain_define(nodes[i], 0));
    let rest = ahead(nodes, i + 1);
    assert(inked(plain_block(nodes, i, 0)) == line + rest);
    lemma_inked_plain(nodes[i], 0);
    lemma_inked_plain(nodes[i], b.indent as nat);
    assert(inked(printed_define(nodes, i, b, q).text) == inked(q.text) + line);
    if starts_block(nodes, i) {
        law_alignment_keeps_a_block(nodes, i, a.indent as nat, 0);
        assert(inked(p.text) =~= inked(q.text));
    }
    assert(inked(q.text) + (line + rest) =~= inked(q.text) + line + rest);
}

/// A node that is no definition holds the same, aligned and not, but for white
/// space.
proof fn lemma_inked_node(nodes: Seq<Syntax>, i: int, a: Context, b: Context, p: Page, q: Page)
    requires
        is_same_place(a, b),
        a.config.align_define,
        !b.config.align_define,
        node_kind(nodes[i]) != Kind::PreprocDef,
        aligns_cleanly(nodes[i]),
        inked(p.text) == inked(q.text),
    ensures
        inked(printed(nodes, i, a, p).text) == inked(printed(nodes, i, b, q).text),
    decreases nodes[i], 0int,
{
    broadcast use {
        lemma_inked_write,
        lemma_inked_indent,
        lemma_inked_newline,
        lemma_inked_separate,
    };

    let node = nodes[i];
    let n = node.children.len() as int;
    match node_kind(node) {
        Kind::PreprocIfdef => {
            let start = |ctx: Context, page: Page|
                page.indent(ctx).write(trimmed(child_text(node, 0))).write(
                    " "@,
                ).write(child_text(node, 1)).write("\n"@);
            if n <= 2 || node_kind(node.children[2]) != Kind::PreprocDef {
                lemma_nothing_ahead(node.children, 2);
            }
            lemma_inked_range(node.children, 2, n, a, b, start(a, p), start(b, q));
            lemma_nothing_ahead(node.children, n);
        },
        Kind::Reference => {
            lemma_inked_range(node.children, 0, n, a, b, p, q);
            lemma_nothing_ahead(node.children, n);
        },
        Kind::Node | Kind::Property | Kind::DeleteNode | Kind::DeleteProperty => {
            let name = child_text(node, 0);
            lemma_inked_range(
                node.children,
                0,
                n,
                inside(a, name),
                inside(b, name),
                p.indent(a),
                q.indent(b),
            );
            lemma_nothing_ahead(node.children, n);
        },
        Kind::AngleClose | Kind::Other => {
            let start = |ctx: Context, page: Page|
                if ctx.config.warn_on_unhandled_tokens {
                    page.warn(unhandled(node))
                } else {
                    page
                };
            if n > 0 {
                lemma_inked_range(node.children, 0, 1, a, b, start(a, p), start(b, q));
                lemma_inked_range(
                    node.children,
                    1,
                    n,
                    deeper(a, 1),
                    deeper(b, 1),
                    printed_range(node.children, 0, 1, a, start(a, p)),
                    printed_range(node.children, 0, 1, b, start(b, q)),
                );
                lemma_nothing_ahead(node.children, n);
            }
        },
        _ => {},
    }
}

/// A range of nodes holds the same, aligned and not, but for white space and
/// for what alignment prints ahead.
proof fn lemma_inked_range(
    nodes: Seq<Syntax>,
    from: int,
    to: int,
    a: Context,
    b: Context,
    p: Page,
    q: Page,
)
    requires
        is_same_place(a, b),
        a.config.align_define,
        !b.config.align_define,
        forall|i: int| from <= i < nodes.len() ==> aligns_cleanly(#[trigger] nodes[i]),
        0 <= from,
        to <= nodes.len(),
        inked(p.text) == inked(q.text) + ahead(nodes, from),
    ensures
        inked(printed_range(nodes, from, to, a, p).text) == inked(
            printed_range(nodes, from, to, b, q).text,
        ) + ahead(nodes, if from < to { to } else { from }),
    decreases nodes, to,
{
    if from < to {
        let last = to - 1;
        let left = printed_range(nodes, from, last, a, p);
        let right = printed_range(nodes, from, last, b, q);
        lemma_inked_range(nodes, from, last, a, b, p, q);
        assert(printed_range(nodes, from, to, a, p) == printed(nodes, last, a, left));
        assert(printed_range(nodes, from, to, b, q) == printed(nodes, last, b, right));
        assert(aligns_cleanly(nodes[last]));
        if node_kind(nodes[last]) == Kind::PreprocDef {
            assert forall|j: int| last <= j < nodes.len() implies keeps_its_comment(
                #[trigger] nodes[j],
            ) by {
                assert(aligns_cleanly(nodes[j]));
            }
            lemma_inked_define(nodes, last, a, b, left, right);
        } else {
            lemma_nothing_ahead(nodes, last);
            assert(inked(left.text) =~= inked(right.text));
            lemma_inked_node(nodes, last, a, b, left, right);
            assert(inked(printed(nodes, last, a, left).text) =~= inked(
                printed(nodes, last, b, right).text,
            ) + ahead(nodes, to));
        }
    }
}

/// The alignment of definitions moves only white space in a document: with the
/// white space taken away, it is the same aligned and not.
pub proof fn law_alignment_keeps_a_document(root: Syntax, config: Config, align: bool)
    requires
        document_aligns_cleanly(root),
    ensures
        inked(document(root, config).text) == inked(
            document(root, Config { align_define: align, ..config }).text,
        ),
{
    let on = outermost(Config { align_define: true, ..config });
    let off = outermost(Config { align_define: false, ..config });
    let nodes = printed_nodes(root);
    let n = nodes.len() as int;
    lemma_inked_white(Seq::<char>::empty());
    lemma_inked_range(nodes, 0, n, on, off, empty_page(), empty_page());
    lemma_nothing_ahead(nodes, n);
    if root.children.len() == 0 {
        reveal_with_fuel(printed_range, 2);
    }
    assert(inked(document(root, on.config).text) =~= inked(document(root, off.config).text));
}

/// The alignment of definitions moves only white space in the output: with the
/// white space taken away, a source is formatted alike aligned and not.
pub proof fn law_alignment_moves_white_space_only(source: Seq<char>, config: Config, align: bool)
    requires
        match source_syntax(source) {
            Some(root) => well_shaped(root) ==> document_aligns_cleanly(root),
            None => true,
        },
    ensures
        inked(formatted(source, config).text) == inked(
            formatted(source, Config { align_define: align, ..config }).text,
        ),
{
    if let Some(root) = source_syntax(source) {
        if well_shaped(root) {
            law_alignment_keeps_a_document(root, config, align);
        }
    }
}

} // verus!
