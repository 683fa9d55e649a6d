//! What holds of definitions that are read again from what was printed.
use vstd::prelude::*;
use vstd::string::*;

use crate::config::Config;
use crate::context::Context;
use crate::define::{
    aligned_line, block_parts, define_comment, define_head, define_parts, define_value, filling,
    first_comment, opens_comment, plain_define, value_width, DefineParts,
};
use crate::kind::Kind;
use crate::laws::defines::{
    law_aligned_parts_read_back, law_split_covers_the_text, law_text_without_comment_is_value,
    law_trimmed_ends, law_trimming_is_stable, law_value_holds_no_comment, lemma_first_exists,
    lemma_scan_behind_white, lemma_trimmed_around, lemma_trimming,
};
use crate::laws::printing::{
    is_define_block, law_block_holds_its_defines, law_block_is_printed_once,
};
use crate::printer::{
    document, empty_page, formatted, outermost, printed, printed_define, printed_range,
};
use crate::syntax::{ends_directives, node_kind, well_shaped, Syntax};
use crate::text::{is_white, spaces, trimmed, trimmed_start};
use crate::tree::source_syntax;
use crate::writer::Page;

verus! {

/// White space around a text does not change what trimming leaves of it.
proof fn lemma_trimmed_in_white(lead: Seq<char>, s: Seq<char>, tail: Seq<char>)
    requires
        forall|i: int| 0 <= i < lead.len() ==> is_white(#[trigger] lead[i]),
        forall|i: int| 0 <= i < tail.len() ==> is_white(#[trigger] tail[i]),
    ensures
        trimmed(lead + s + tail) == trimmed(s),
{
    let (front, back) = lemma_trimming(s);
    law_trimmed_ends(s);
    lemma_trimmed_around(lead + front, trimmed(s), back + tail);
    assert(lead + s + tail =~= (lead + front) + trimmed(s) + (back + tail));
}

/// A comment opens in a text where it opens with white space around the text.
proof fn lemma_opens_in_white(lead: Seq<char>, s: Seq<char>, tail: Seq<char>, k: int)
    requires
        forall|i: int| 0 <= i < lead.len() ==> is_white(#[trigger] lead[i]),
        forall|i: int| 0 <= i < tail.len() ==> is_white(#[trigger] tail[i]),
    ensures
        opens_comment(lead + s + tail, lead.len() + k) == opens_comment(s, k),
{
    let raw = lead + s + tail;
    let at = lead.len() + k;
    if 0 <= k < s.len() - 1 {
        assert(raw.take(at) =~= lead + s.take(k));
        lemma_scan_behind_white(lead, s.take(k));
    } else if 0 <= at < raw.len() - 1 {
        if k < 0 {
            assert(raw[at] == lead[at]);
        } else {
            assert(raw[at + 1] == tail[k + 1 - s.len()]);
        }
    }
}

/// White space around the raw text of a macro changes neither its value nor its
/// comment.
pub proof fn law_trimming_leaves_the_parts(raw: Seq<char>)
    ensures
        define_value(trimmed(raw)) == define_value(raw),
        define_comment(trimmed(raw)) == define_comment(raw),
{
    let (lead, tail) = lemma_trimming(raw);
    let t = trimmed(raw);
    let shift = lead.len() as int;
    if exists|k: int| first_comment(raw, k) {
        let k = choose|k: int| first_comment(raw, k);
        let at = k - shift;
        lemma_opens_in_white(lead, t, tail, at);
        assert forall|j: int| 0 <= j < at implies !opens_comment(t, j) by {
            lemma_opens_in_white(lead, t, tail, j);
        }
        law_split_covers_the_text(raw, k);
        law_split_covers_the_text(t, at);
        lemma_trimmed_in_white(lead, t.take(at), Seq::empty());
        assert(raw.take(k) =~= lead + t.take(at) + Seq::<char>::empty());
        lemma_trimmed_in_white(Seq::empty(), t.skip(at + 2), tail);
        assert(raw.skip(k + 2) =~= Seq::<char>::empty() + t.skip(at + 2) + tail);
    } else {
        assert forall|j: int| !opens_comment(t, j) by {
            lemma_opens_in_white(lead, t, tail, j);
            if opens_comment(t, j) {
                lemma_first_exists(raw, shift + j);
            }
        }
        law_text_without_comment_is_value(t);
        law_trimming_is_stable(raw);
    }
}

/// The name that a definition holds.
pub open spec fn name_text(node: Syntax) -> Seq<char> {
    match node.name {
        Some(name) => name,
        None => seq![],
    }
}

/// The text that a definition holds behind its name.
pub open spec fn raw_text(node: Syntax) -> Seq<char> {
    match node.value {
        Some(raw) => raw,
        None => seq![],
    }
}

/// The parts of a definition are those of its texts.
pub proof fn law_parts_are_those_of_the_texts(node: Syntax)
    ensures
        define_parts(node).name == trimmed(name_text(node)),
        define_parts(node).value == define_value(raw_text(node)),
        define_parts(node).comment == define_comment(raw_text(node)),
{
    let none = Seq::<char>::empty();
    assert(trimmed_start(none) =~= none);
    law_text_without_comment_is_value(none);
    assert(forall|k: int| !first_comment(none, k));
}

/// Whether a node is a definition with the given name and the given text behind
/// it, white space around each aside.
pub open spec fn reads_as(node: Syntax, name: Seq<char>, rest: Seq<char>) -> bool {
    &&& node_kind(node) == Kind::PreprocDef
    &&& trimmed(name_text(node)) == trimmed(name)
    &&& trimmed(raw_text(node)) == trimmed(rest)
}

/// What an aligned line holds behind the name and the spaces that follow it.
pub open spec fn aligned_rest(line: DefineParts, values: nat) -> Seq<char> {
    match line.comment {
        Some(comment) => line.value + filling(values, line.value) + "  // "@ + comment,
        None => line.value,
    }
}

/// An aligned line reads back as the definition that it was printed for: behind
/// the name stands a text with the same value and the same comment.
pub proof fn law_aligned_line_reads_back(
    node: Syntax,
    again: Syntax,
    names: nat,
    values: nat,
    indent: nat,
)
    requires
        reads_as(again, define_parts(node).name, aligned_rest(define_parts(node), values)),
    ensures
        aligned_line(define_parts(node), names, values, indent) == define_head(
            define_parts(node),
            names,
            indent,
        ) + aligned_rest(define_parts(node), values) + "\n"@,
        define_parts(again) == define_parts(node),
{
    let line = define_parts(node);
    let raw = raw_text(node);
    let rest = aligned_rest(line, values);
    law_parts_are_those_of_the_texts(node);
    law_parts_are_those_of_the_texts(again);
    law_trimming_is_stable(name_text(node));
    law_trimming_leaves_the_parts(raw_text(again));
    law_trimming_leaves_the_parts(rest);
    match line.comment {
        Some(comment) => {
            reveal_strlit("  // ");
            reveal_strlit("// ");
            let n = (filling(values, line.value).len() + 2) as nat;
            law_aligned_parts_read_back(raw, n);
            assert(rest =~= line.value + spaces(n) + "// "@ + comment);
            assert(aligned_line(line, names, values, indent) =~= define_head(line, names, indent)
                + rest + "\n"@);
        },
        None => {
            law_value_holds_no_comment(raw);
        },
    }
}

/// A definition on its own reads back as the definition that it was printed
/// for, and prints as the same line.
pub proof fn law_plain_line_reads_back(node: Syntax, again: Syntax, indent: nat)
    requires
        reads_as(again, define_parts(node).name, trimmed(raw_text(node))),
    ensures
        define_parts(again) == define_parts(node),
        plain_define(again, indent) == plain_define(node, indent),
{
    law_parts_are_those_of_the_texts(node);
    law_parts_are_those_of_the_texts(again);
    law_trimming_is_stable(name_text(node));
    law_trimming_is_stable(raw_text(node));
    law_trimming_leaves_the_parts(raw_text(again));
    law_trimming_leaves_the_parts(raw_text(node));
    assert(trimmed_start(Seq::<char>::empty()) =~= seq![]);
}

/// A block that is read again from its aligned lines is aligned to the same
/// lines.
pub proof fn law_aligned_block_is_stable(
    nodes: Seq<Syntax>,
    again: Seq<Syntax>,
    from: int,
    to: int,
)
    requires
        is_define_block(nodes, from, to),
        is_define_block(again, from, to),
        forall|i: int|
            from <= i < to ==> reads_as(
                #[trigger] again[i],
                define_parts(nodes[i]).name,
                aligned_rest(define_parts(nodes[i]), value_width(block_parts(nodes, from))),
            ),
    ensures
        block_parts(again, from) == block_parts(nodes, from),
{
    law_block_holds_its_defines(nodes, from, to);
    law_block_holds_its_defines(again, from, to);
    let old_lines = block_parts(nodes, from);
    let new_lines = block_parts(again, from);
    assert forall|i: int| 0 <= i < to - from implies new_lines[i] == old_lines[i] by {
        law_aligned_line_reads_back(nodes[from + i], again[from + i], 0, value_width(old_lines), 0);
    }
    assert(new_lines =~= old_lines);
}

/// What is printed behind the name of a definition in a list of definitions.
pub open spec fn printed_rest(nodes: Seq<Syntax>, i: int, config: Config) -> Seq<char> {
    if config.align_define {
        aligned_rest(define_parts(nodes[i]), value_width(block_parts(nodes, 0)))
    } else {
        trimmed(raw_text(nodes[i]))
    }
}

/// Whether a document of definitions only is what the lines that another prints
/// to read as, one definition for each line.
pub open spec fn rereads(root: Syntax, again: Syntax, config: Config) -> bool {
    &&& root.children.len() > 0
    &&& again.children.len() == root.children.len()
    &&& forall|i: int|
        0 <= i < root.children.len() ==> node_kind(#[trigger] root.children[i])
            == Kind::PreprocDef
    &&& forall|i: int|
        0 <= i < again.children.len() ==> reads_as(
            #[trigger] again.children[i],
            define_parts(root.children[i]).name,
            printed_rest(root.children, i, config),
        )
}

/// Definitions that print as the same lines fill the same page.
proof fn lemma_same_lines(nodes: Seq<Syntax>, again: Seq<Syntax>, to: int, ctx: Context, page: Page)
    requires
        !ctx.config.align_define,
        0 <= to <= nodes.len(),
        again.len() == nodes.len(),
        forall|i: int|
            0 <= i < nodes.len() ==> node_kind(#[trigger] nodes[i]) == Kind::PreprocDef,
        forall|i: int|
            0 <= i < nodes.len() ==> node_kind(#[trigger] again[i]) == Kind::PreprocDef,
        forall|i: int|
            0 <= i < nodes.len() ==> plain_define(#[trigger] again[i], ctx.indent as nat)
                == plain_define(nodes[i], ctx.indent as nat),
    ensures
        printed_range(again, 0, to, ctx, page) == printed_range(nodes, 0, to, ctx, page),
    decreases to,
{
    if to > 0 {
        let last = to - 1;
        let before = printed_range(nodes, 0, last, ctx, page);
        lemma_same_lines(nodes, again, last, ctx, page);
        assert(node_kind(nodes[last]) == Kind::PreprocDef);
        assert(node_kind(again[last]) == Kind::PreprocDef);
        if to < nodes.len() {
            assert(node_kind(nodes[to]) == Kind::PreprocDef);
            assert(node_kind(again[to]) == Kind::PreprocDef);
        }
        assert(printed_range(nodes, 0, to, ctx, page) == printed(nodes, last, ctx, before));
        assert(printed_range(again, 0, to, ctx, page) == printed(again, last, ctx, before));
        assert(printed(nodes, last, ctx, before) == printed_define(nodes, last, ctx, before));
        assert(printed(again, last, ctx, before) == printed_define(again, last, ctx, before));
        assert(ends_directives(nodes, last) == ends_directives(again, last));
    }
}

/// Definitions that are read again from what they print as print as the same
/// document, aligned and not.
pub proof fn law_printed_defines_are_stable(root: Syntax, again: Syntax, config: Config)
    requires
        rereads(root, again, config),
    ensures
        document(again, config) == document(root, config),
{
    let nodes = root.children;
    let n = nodes.len() as int;
    let ctx = outermost(config);
    if config.align_define {
        assert(is_define_block(nodes, 0, n));
        assert(is_define_block(again.children, 0, n));
        law_aligned_block_is_stable(nodes, again.children, 0, n);
        law_block_is_printed_once(nodes, 0, n, ctx, empty_page());
        law_block_is_printed_once(again.children, 0, n, ctx, empty_page());
    } else {
        assert forall|i: int| 0 <= i < n implies plain_define(
            #[trigger] again.children[i],
            ctx.indent as nat,
        ) == plain_define(nodes[i], ctx.indent as nat) by {
            law_plain_line_reads_back(nodes[i], again.children[i], ctx.indent as nat);
        }
        lemma_same_lines(nodes, again.children, n, ctx, empty_page());
    }
}

/// To format a source of definitions again changes nothing, where the parser
/// reads each printed line as the definition that stands there.
pub proof fn law_formatting_defines_is_stable(
    source: Seq<char>,
    root: Syntax,
    again: Syntax,
    config: Config,
)
    requires
        source_syntax(source) == Some(root),
        source_syntax(formatted(source, config).text) == Some(again),
        well_shaped(root),
        well_shaped(again),
        rereads(root, again, config),
    ensures
        formatted(formatted(source, config).text, config) == formatted(source, config),
{
    law_printed_defines_are_stable(root, again, config);
}

} // verus!
