//! What holds of the printer on every syntax tree.
use vstd::prelude::*;
use vstd::string::*;

use crate::config::Config;
use crate::context::{deeper, inside, Context};
use crate::define::{aligned_block, block_parts, continues_block, define_parts, starts_block};
use crate::kind::Kind;
use crate::laws::defines::law_trimmed_ends;
use crate::printer::{
    child_text, comment_text, document, empty_page, formatted, outermost, printed, printed_define,
    printed_range, unhandled,
};
use crate::syntax::{ends_directives, kind_before, node_kind, Syntax};
use crate::text::{begins, ends, trimmed, trimmed_start, without_slashes};
use crate::tree::source_syntax;
use crate::writer::Page;

verus! {

/// Whether a page holds all that an earlier page held, and possibly more
/// behind it.
pub open spec fn continues(page: Page, later: Page) -> bool {
    page.text.is_prefix_of(later.text) && page.warnings.is_prefix_of(later.warnings)
}

/// A page continues itself.
proof fn lemma_continues_itself(page: Page)
    ensures
        continues(page, page),
{
}

/// To add a text continues a page.
broadcast proof fn lemma_write_continues(base: Page, page: Page, text: Seq<char>)
    requires
        continues(base, page),
    ensures
        #[trigger] continues(base, page.write(text)),
{
    assert(base.text =~= page.write(text).text.subrange(0, base.text.len() as int));
}

/// To add a warning continues a page.
broadcast proof fn lemma_warn_continues(base: Page, page: Page, warning: Seq<char>)
    requires
        continues(base, page),
    ensures
        #[trigger] continues(base, page.warn(warning)),
{
    assert(base.warnings =~= page.warn(warning).warnings.subrange(0, base.warnings.len() as int));
}

/// A page continues what the page before it continues.
proof fn lemma_continues_through(a: Page, b: Page, c: Page)
    requires
        continues(a, b),
        continues(b, c),
    ensures
        continues(a, c),
{
    assert(a.text =~= c.text.subrange(0, a.text.len() as int)) by {
        assert forall|i: int| 0 <= i < a.text.len() implies a.text[i] == c.text[i] by {
            assert(b.text.subrange(0, a.text.len() as int)[i] == b.text[i]);
            assert(c.text.subrange(0, b.text.len() as int)[i] == c.text[i]);
        }
    }
    assert(a.warnings =~= c.warnings.subrange(0, a.warnings.len() as int)) by {
        assert forall|i: int| 0 <= i < a.warnings.len() implies a.warnings[i] == c.warnings[i] by {
            assert(b.warnings.subrange(0, a.warnings.len() as int)[i] == b.warnings[i]);
            assert(c.warnings.subrange(0, b.warnings.len() as int)[i] == c.warnings[i]);
        }
    }
}

/// What is printed stays: a node only adds to the end of the text and of the
/// warnings, and adds no warning where they are switched off.
pub proof fn law_printing_appends(nodes: Seq<Syntax>, i: int, ctx: Context, page: Page)
    ensures
        continues(page, printed(nodes, i, ctx, page)),
        !ctx.config.warn_on_unhandled_tokens ==> printed(nodes, i, ctx, page).warnings
            == page.warnings,
    decreases nodes[i], 0int,
{
    broadcast use {lemma_write_continues, lemma_warn_continues};

    lemma_continues_itself(page);
    let node = nodes[i];
    let n = node.children.len() as int;
    match node_kind(node) {
        Kind::PreprocIfdef => {
            let start = page.indent(ctx).write(trimmed(child_text(node, 0))).write(
                " "@,
            ).write(child_text(node, 1)).write("\n"@);
            law_range_appends(node.children, 2, n, ctx, start);
            lemma_continues_through(page, start, printed_range(node.children, 2, n, ctx, start));
        },
        Kind::Reference => {
            law_range_appends(node.children, 0, n, ctx, page);
        },
        Kind::Node | Kind::Property | Kind::DeleteNode | Kind::DeleteProperty => {
            let inner = inside(ctx, child_text(node, 0));
            law_range_appends(node.children, 0, n, inner, page.indent(ctx));
            lemma_continues_through(
                page,
                page.indent(ctx),
                printed_range(node.children, 0, n, inner, page.indent(ctx)),
            );
        },
        Kind::AngleClose | Kind::Other => {
            let start = if ctx.config.warn_on_unhandled_tokens {
                page.warn(unhandled(node))
            } else {
                page
            };
            let middle = printed_range(node.children, 0, 1, ctx, start);
            law_range_appends(node.children, 0, 1, ctx, start);
            law_range_appends(node.children, 1, n, deeper(ctx, 1), middle);
            lemma_continues_through(page, start, middle);
            lemma_continues_through(
                page,
                middle,
                printed_range(node.children, 1, n, deeper(ctx, 1), middle),
            );
        },
        _ => {},
    }
}

/// What is printed stays, over a range of nodes.
pub proof fn law_range_appends(nodes: Seq<Syntax>, from: int, to: int, ctx: Context, page: Page)
    ensures
        continues(page, printed_range(nodes, from, to, ctx, page)),
        !ctx.config.warn_on_unhandled_tokens ==> printed_range(
            nodes,
            from,
            to,
            ctx,
            page,
        ).warnings == page.warnings,
    decreases nodes, to,
{
    lemma_continues_itself(page);
    if 0 <= from < to <= nodes.len() {
        let before = printed_range(nodes, from, to - 1, ctx, page);
        law_range_appends(nodes, from, to - 1, ctx, page);
        law_printing_appends(nodes, to - 1, ctx, before);
        lemma_continues_through(page, before, printed(nodes, to - 1, ctx, before));
    }
}

/// No warning comes up where they are switched off.
pub proof fn law_warnings_can_be_off(root: Syntax, config: Config)
    requires
        !config.warn_on_unhandled_tokens,
    ensures
        document(root, config).warnings.len() == 0,
{
    law_range_appends(
        root.children,
        0,
        root.children.len() as int,
        outermost(config),
        empty_page(),
    );
    law_printing_appends(seq![root], 0, outermost(config), empty_page());
}

/// To print a range is to print its first part and then the rest: no node
/// stops what follows it.
pub proof fn law_ranges_compose(
    nodes: Seq<Syntax>,
    from: int,
    middle: int,
    to: int,
    ctx: Context,
    page: Page,
)
    requires
        0 <= from <= middle <= to <= nodes.len(),
    ensures
        printed_range(nodes, from, to, ctx, page) == printed_range(
            nodes,
            middle,
            to,
            ctx,
            printed_range(nodes, from, middle, ctx, page),
        ),
    decreases to - middle,
{
    if middle < to {
        law_ranges_compose(nodes, from, middle, to - 1, ctx, page);
    }
}

/// Whether no node of a tree is a macro definition.
pub open spec fn has_no_define(node: Syntax) -> bool
    decreases node,
{
    node_kind(node) != Kind::PreprocDef && forall|i: int|
        0 <= i < node.children.len() ==> has_no_define(#[trigger] node.children[i])
}

/// Whether two places differ at most in whether warnings are on and whether
/// definitions are aligned.
pub open spec fn is_same_place(a: Context, b: Context) -> bool {
    a.indent == b.indent && a.bindings == b.bindings && a.keymap == b.keymap && a.config.layout
        == b.config.layout
}

/// Whether two places have the same setting for warnings, and pages at them
/// the same warnings.
pub open spec fn warns_alike(a: Context, b: Context, p: Page, q: Page) -> bool {
    a.config.warn_on_unhandled_tokens == b.config.warn_on_unhandled_tokens && p.warnings
        == q.warnings
}

/// The text of a node does not depend on the setting for warnings, nor on the
/// alignment of definitions where there is none.
proof fn lemma_same_text(
    nodes: Seq<Syntax>,
    i: int,
    a: Context,
    b: Context,
    p: Page,
    q: Page,
)
    requires
        is_same_place(a, b),
        p.text == q.text,
        a.config.align_define == b.config.align_define || has_no_define(nodes[i]),
    ensures
        printed(nodes, i, a, p).text == printed(nodes, i, b, q).text,
        warns_alike(a, b, p, q) ==> printed(nodes, i, a, p).warnings == printed(
            nodes,
            i,
            b,
            q,
        ).warnings,
    decreases nodes[i], 0int,
{
    let node = nodes[i];
    let n = node.children.len() as int;
    match node_kind(node) {
        Kind::PreprocIfdef => {
            let start = |ctx: Context, page: Page|
                page.indent(ctx).write(trimmed(child_text(node, 0))).write(
                    " "@,
                ).write(child_text(node, 1)).write("\n"@);
            lemma_same_range(node.children, 2, n, a, b, start(a, p), start(b, q));
        },
        Kind::Reference => {
            lemma_same_range(node.children, 0, n, a, b, p, q);
        },
        Kind::Node | Kind::Property | Kind::DeleteNode | Kind::DeleteProperty => {
            let name = child_text(node, 0);
            lemma_same_range(
                node.children,
                0,
                n,
                inside(a, name),
                inside(b, name),
                p.indent(a),
                q.indent(b),
            );
        },
        Kind::AngleClose | Kind::Other => {
            let start = |ctx: Context, page: Page|
                if ctx.config.warn_on_unhandled_tokens {
                    page.warn(unhandled(node))
                } else {
                    page
                };
            lemma_same_range(node.children, 0, 1, a, b, start(a, p), start(b, q));
            lemma_same_range(
                node.children,
                1,
                n,
                deeper(a, 1),
                deeper(b, 1),
                printed_range(node.children, 0, 1, a, start(a, p)),
                printed_range(node.children, 0, 1, b, start(b, q)),
            );
        },
        _ => {},
    }
}

/// The same over a range of nodes.
proof fn lemma_same_range(
    nodes: Seq<Syntax>,
    from: int,
    to: int,
    a: Context,
    b: Context,
    p: Page,
    q: Page,
)
    requires
        is_same_place(a, b),
        p.text == q.text,
        a.config.align_define == b.config.align_define || forall|i: int|
            0 <= i < nodes.len() ==> has_no_define(#[trigger] nodes[i]),
    ensures
        printed_range(nodes, from, to, a, p).text == printed_range(nodes, from, to, b, q).text,
        warns_alike(a, b, p, q) ==> printed_range(nodes, from, to, a, p).warnings
            == printed_range(nodes, from, to, b, q).warnings,
    decreases nodes, to,
{
    if 0 <= from < to <= nodes.len() {
        lemma_same_range(nodes, from, to - 1, a, b, p, q);
        lemma_same_text(
            nodes,
            to - 1,
            a,
            b,
            printed_range(nodes, from, to - 1, a, p),
            printed_range(nodes, from, to - 1, b, q),
        );
    }
}

/// Whether warnings are on does not change the formatted text.
pub proof fn law_warnings_leave_the_text(root: Syntax, config: Config, warn: bool)
    ensures
        document(root, config).text == document(
            root,
            Config { warn_on_unhandled_tokens: warn, ..config },
        ).text,
{
    let other = Config { warn_on_unhandled_tokens: warn, ..config };
    let n = root.children.len() as int;
    lemma_same_range(
        root.children,
        0,
        n,
        outermost(config),
        outermost(other),
        empty_page(),
        empty_page(),
    );
    lemma_same_text(
        seq![root],
        0,
        outermost(config),
        outermost(other),
        empty_page(),
        empty_page(),
    );
}

/// The alignment of definitions changes nothing in a document without any.
pub proof fn law_alignment_concerns_defines_only(root: Syntax, config: Config, align: bool)
    requires
        has_no_define(root),
    ensures
        document(root, config) == document(root, Config { align_define: align, ..config }),
{
    let other = Config { align_define: align, ..config };
    let n = root.children.len() as int;
    assert(seq![root][0] == root);
    lemma_same_range(
        root.children,
        0,
        n,
        outermost(config),
        outermost(other),
        empty_page(),
        empty_page(),
    );
    lemma_same_text(
        seq![root],
        0,
        outermost(config),
        outermost(other),
        empty_page(),
        empty_page(),
    );
}

/// Whether warnings are on does not change what a source is formatted to.
pub proof fn law_warnings_leave_the_output(source: Seq<char>, config: Config, warn: bool)
    ensures
        formatted(source, config).text == formatted(
            source,
            Config { warn_on_unhandled_tokens: warn, ..config },
        ).text,
        !config.warn_on_unhandled_tokens ==> formatted(source, config).warnings.len() == 0,
{
    if let Some(root) = source_syntax(source) {
        law_warnings_leave_the_text(root, config, warn);
        if !config.warn_on_unhandled_tokens {
            law_warnings_can_be_off(root, config);
        }
    }
}

/// Whether the nodes between two indices are a whole block of definitions.
pub open spec fn is_define_block(nodes: Seq<Syntax>, from: int, to: int) -> bool {
    &&& 0 <= from < to <= nodes.len()
    &&& kind_before(nodes, from) != Some(Kind::PreprocDef)
    &&& forall|i: int| from <= i < to ==> node_kind(#[trigger] nodes[i]) == Kind::PreprocDef
    &&& to < nodes.len() ==> node_kind(nodes[to]) != Kind::PreprocDef
}

/// The page behind the first nodes of a block.
proof fn lemma_block_prefix(
    nodes: Seq<Syntax>,
    from: int,
    middle: int,
    to: int,
    ctx: Context,
    page: Page,
)
    requires
        ctx.config.align_define,
        is_define_block(nodes, from, to),
        from < middle <= to,
    ensures
        printed_range(nodes, from, middle, ctx, page) == page.write(
            aligned_block(block_parts(nodes, from), ctx.indent as nat),
        ).newline_if(middle == to && ends_directives(nodes, to - 1)),
    decreases middle,
{
    let last = middle - 1;
    let before = printed_range(nodes, from, last, ctx, page);
    assert(node_kind(nodes[last]) == Kind::PreprocDef);
    assert(printed_range(nodes, from, middle, ctx, page) == printed(nodes, last, ctx, before));
    assert(printed(nodes, last, ctx, before) == printed_define(nodes, last, ctx, before));
    if middle < to {
        assert(node_kind(nodes[middle]) == Kind::PreprocDef);
        assert(!ends_directives(nodes, last));
    }
    if middle == from + 1 {
        assert(starts_block(nodes, from));
        assert(printed_range(nodes, from, from, ctx, page) == page);
    } else {
        lemma_block_prefix(nodes, from, last, to, ctx, page);
        assert(node_kind(nodes[last - 1]) == Kind::PreprocDef);
        assert(continues_block(nodes, last));
        assert(!starts_block(nodes, last));
    }
}

/// An aligned block of definitions is printed once, as a whole, with a blank
/// line behind it where something other than a directive follows.
pub proof fn law_block_is_printed_once(
    nodes: Seq<Syntax>,
    from: int,
    to: int,
    ctx: Context,
    page: Page,
)
    requires
        ctx.config.align_define,
        is_define_block(nodes, from, to),
    ensures
        printed_range(nodes, from, to, ctx, page) == page.write(
            aligned_block(block_parts(nodes, from), ctx.indent as nat),
        ).newline_if(ends_directives(nodes, to - 1)),
{
    lemma_block_prefix(nodes, from, to, to, ctx, page);
}

/// A block holds each of its definitions, in order.
pub proof fn law_block_holds_its_defines(nodes: Seq<Syntax>, from: int, to: int)
    requires
        is_define_block(nodes, from, to),
    ensures
        block_parts(nodes, from).len() == to - from,
        forall|i: int|
            0 <= i < to - from ==> #[trigger] block_parts(nodes, from)[i]
                == define_parts(nodes[from + i]),
{
    lemma_run(nodes, from, to);
}

/// The definitions from an index up to the end of their run.
pub(crate) proof fn lemma_run(nodes: Seq<Syntax>, from: int, to: int)
    requires
        0 <= from <= to <= nodes.len(),
        forall|i: int| from <= i < to ==> node_kind(#[trigger] nodes[i]) == Kind::PreprocDef,
        to < nodes.len() ==> node_kind(nodes[to]) != Kind::PreprocDef,
    ensures
        block_parts(nodes, from).len() == to - from,
        forall|i: int|
            0 <= i < to - from ==> #[trigger] block_parts(nodes, from)[i]
                == define_parts(nodes[from + i]),
    decreases to - from,
{
    if from < to {
        assert(node_kind(nodes[from]) == Kind::PreprocDef);
        lemma_run(nodes, from + 1, to);
    }
}

/// A blank line is not doubled: behind a complete line the separation leaves
/// one blank line, and separating again adds nothing.
pub proof fn law_separation_is_stable(page: Page)
    requires
        ends(page.text, "\n"@),
    ensures
        ends(page.separate().text, "\n\n"@),
        page.separate().separate() == page.separate(),
{
    reveal_strlit("\n");
    reveal_strlit("\n\n");
    let text = page.text + "\n"@;
    assert(page.text.skip(page.text.len() - 1)[0] == '\n');
    assert(text.skip(text.len() - 2) =~= "\n\n"@);
}

/// To print a comment that was printed changes nothing.
pub proof fn law_comments_are_stable(text: Seq<char>)
    ensures
        comment_text(comment_text(text)) == comment_text(text),
{
    reveal_strlit("//");
    reveal_strlit("// ");
    let content = trimmed(without_slashes(text));
    if begins(text, "//"@) && content.len() == 0 {
        assert("//"@.take(2) =~= "//"@);
        assert("//"@.skip(2) =~= seq![]);
        assert(without_slashes("//"@.skip(2)) =~= seq![]);
        assert(trimmed_start(Seq::<char>::empty()) =~= seq![]);
    } else if begins(text, "//"@) {
        let again = "// "@ + content;
        let rest = again.skip(2);
        assert(again.take(2) =~= "//"@);
        assert(without_slashes(again) == without_slashes(rest));
        assert(without_slashes(rest) == rest);
        law_trimmed_ends(without_slashes(text));
        assert(rest.skip(1) =~= content);
        assert(trimmed_start(rest) == trimmed_start(rest.skip(1)));
    }
}

} // verus!
