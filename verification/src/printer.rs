//! The printer: from a syntax tree to its formatted text.
use vstd::prelude::*;
use vstd::string::*;

use crate::bindings::{bindings_grid, print_bindings};
use crate::config::Config;
use crate::context::{deeper, in_keymap_bindings, inside, outdented, shallower, Context};
use crate::define::{
    aligned_block, block_parts, is_define_block_member, is_define_block_start, plain_define, print_define_block,
    print_plain_define, starts_block,
};
use crate::kind::{classify, Kind};
use crate::syntax::{
    ends_directives, has_parts, is_last_directive, is_well_shaped, kind_after, kind_before,
    lemma_children, lookahead, lookbehind, node_kind, nodes_of, well_shaped, Syntax, SyntaxNode,
};
use crate::text::{
    begins, begins_with, decimal, join_words, joined, same, spaces, split_words, strip_slashes,
    texts, to_decimal, trim, trimmed, without_slashes, words,
};
use crate::tree::{parse, read, source_syntax};
use crate::writer::{Page, Writer};

verus! {

/// A comment as it is printed: one that begins with two slashes has one space
/// behind them and none at its end, any other is printed as it is.
pub open spec fn comment_text(text: Seq<char>) -> Seq<char> {
    if begins(text, "//"@) {
        let content = trimmed(without_slashes(text));
        if content.len() == 0 {
            "//"@
        } else {
            "// "@ + content
        }
    } else {
        text
    }
}

/// The text of the child at an index, or of the last one where there are
/// fewer.
pub open spec fn child_text(node: Syntax, k: int) -> Seq<char> {
    if k < node.children.len() {
        node.children[k].text
    } else {
        node.children.last().text
    }
}

/// The texts of the cells from an index up to the closing bracket.
pub open spec fn cells_from(nodes: Seq<Syntax>, k: int) -> Seq<Seq<char>>
    decreases nodes.len() - k,
{
    if 0 <= k < nodes.len() && node_kind(nodes[k]) != Kind::AngleClose {
        seq![nodes[k].text] + cells_from(nodes, k + 1)
    } else {
        seq![]
    }
}

/// How many bytes stand on one line of a byte string.
pub const BYTES_PER_LINE: usize = 16;

/// The bytes of a byte string from an index, sixteen on a line.
pub open spec fn byte_lines(bytes: Seq<Seq<char>>, k: int, indent: nat) -> Seq<char>
    decreases bytes.len() - k,
{
    if 0 <= k < bytes.len() {
        let end = if bytes.len() - k <= BYTES_PER_LINE {
            bytes.len() as int
        } else {
            k + BYTES_PER_LINE
        };
        spaces(2 * indent) + joined(bytes.subrange(k, end)) + "\n"@ + byte_lines(
            bytes,
            end,
            indent,
        )
    } else {
        seq![]
    }
}

/// A byte string: one that fills a line or less in one line, any other on
/// lines of its own, with the closing bracket behind the last of them.
pub open spec fn byte_string_text(text: Seq<char>, indent: nat) -> Seq<char> {
    let bytes = words(text.subrange(1, text.len() - 1));
    if bytes.len() <= BYTES_PER_LINE {
        "["@ + joined(bytes) + "]"@
    } else {
        "[\n"@ + byte_lines(bytes, 0, indent) + spaces(2 * outdented(indent)) + "]"@
    }
}

/// The warning for a node that the printer has no rule for.
pub open spec fn unhandled(node: Syntax) -> Seq<char> {
    "unhandled type '"@ + node.kind + "' ("@ + decimal(node.children.len()) + (if node.children.len()
        == 1 {
        " child): "@
    } else {
        " children): "@
    }) + node.text
}

/// Whether a blank line stands behind an item: a node follows a property or a
/// node.
pub open spec fn is_before_node(nodes: Seq<Syntax>, i: int) -> bool {
    (node_kind(nodes[i]) == Kind::Property || node_kind(nodes[i]) == Kind::Node) && kind_after(
        nodes,
        i,
    ) == Some(Kind::Node)
}

/// Whether a blank line stands before a comment: a node that is no comment and
/// no opening brace precedes it.
pub open spec fn is_apart(nodes: Seq<Syntax>, i: int) -> bool {
    match kind_before(nodes, i) {
        Some(kind) => kind != Kind::Comment && kind != Kind::BraceOpen,
        None => false,
    }
}

/// The page behind a macro definition.
pub open spec fn printed_define(nodes: Seq<Syntax>, i: int, ctx: Context, page: Page) -> Page {
    let page = if !ctx.config.align_define {
        page.write(plain_define(nodes[i], ctx.indent as nat))
    } else if starts_block(nodes, i) {
        page.write(aligned_block(block_parts(nodes, i), ctx.indent as nat))
    } else {
        page
    };
    page.newline_if(ends_directives(nodes, i))
}

/// The page behind the node at an index of a list of siblings.
pub open spec fn printed(nodes: Seq<Syntax>, i: int, ctx: Context, page: Page) -> Page
    decreases nodes[i], 0int,
{
    let node = nodes[i];
    let n = node.children.len() as int;
    match node_kind(node) {
        Kind::FileVersion | Kind::Plugin => page.write(node.text).write("\n\n"@),
        Kind::Comment => {
            let page = if is_apart(nodes, i) {
                page.separate()
            } else {
                page
            };
            page.indent(ctx).write(comment_text(node.text)).write("\n"@)
        },
        Kind::DtsiInclude => page.indent(ctx).write("/include/ "@).write(child_text(node, 1)).write(
            "\n"@,
        ).newline_if(
            kind_after(nodes, i) is Some && kind_after(nodes, i) != Some(Kind::DtsiInclude),
        ),
        Kind::PreprocInclude => page.indent(ctx).write("#include "@).write(
            child_text(node, 1),
        ).write("\n"@).newline_if(ends_directives(nodes, i)),
        Kind::PreprocDef => printed_define(nodes, i, ctx, page),
        Kind::PreprocFunctionDef => page.write("#define "@).write(child_text(node, 1)).write(
            child_text(node, 2),
        ).write(" "@).write(child_text(node, 3)).write("\n"@).newline_if(
            ends_directives(nodes, i),
        ),
        Kind::PreprocIfdef => {
            let page = page.indent(ctx).write(trimmed(child_text(node, 0))).write(" "@).write(
                child_text(node, 1),
            ).write("\n"@);
            printed_range(node.children, 2, n, ctx, page).indent(ctx).write(
                "#endif\n"@,
            ).newline_if(ends_directives(nodes, i))
        },
        Kind::Identifier | Kind::StringLiteral | Kind::UnitAddress | Kind::Path => page.write(
            node.text,
        ),
        Kind::Reference => printed_range(node.children, 0, n, ctx, page),
        Kind::Node | Kind::Property | Kind::DeleteNode | Kind::DeleteProperty => printed_range(
            node.children,
            0,
            n,
            inside(ctx, child_text(node, 0)),
            page.indent(ctx),
        ).newline_if(is_before_node(nodes, i)),
        Kind::ByteStringLiteral => page.write(byte_string_text(node.text, ctx.indent as nat)),
        Kind::IntegerCells => if in_keymap_bindings(ctx) {
            page.write(bindings_grid(node.children, ctx.config.layout, ctx.indent as nat))
        } else {
            page.write("<"@).write(joined(cells_from(node.children, 1))).write(">"@)
        },
        Kind::At => page.write("@"@),
        Kind::Ampersand => page.write("&"@),
        Kind::PathOpen => page.write("&{"@),
        Kind::BraceClose => page.indent(shallower(ctx, 1)).write("}"@),
        Kind::BraceOpen => page.write(" {\n"@),
        Kind::Colon => page.write(": "@),
        Kind::Semicolon => page.write(";\n"@),
        Kind::Comma => page.write(", "@),
        Kind::Equals => page.write(" = "@),
        Kind::DeleteNodeWord | Kind::DeletePropertyWord => page.write(node.kind).write(" "@),
        Kind::AngleClose | Kind::Other => {
            let page = if ctx.config.warn_on_unhandled_tokens {
                page.warn(unhandled(node))
            } else {
                page
            };
            if n > 0 {
                printed_range(
                    node.children,
                    1,
                    n,
                    deeper(ctx, 1),
                    printed_range(node.children, 0, 1, ctx, page),
                )
            } else {
                page
            }
        },
    }
}

/// The page behind the nodes between two indices of a list of siblings.
pub open spec fn printed_range(
    nodes: Seq<Syntax>,
    from: int,
    to: int,
    ctx: Context,
    page: Page,
) -> Page
    decreases nodes, to,
{
    if 0 <= from < to <= nodes.len() {
        printed(nodes, to - 1, ctx, printed_range(nodes, from, to - 1, ctx, page))
    } else {
        page
    }
}

/// Prints a comment.
fn print_comment(writer: &mut Writer, text: &str)
    ensures
        final(writer)@ == old(writer)@.write(comment_text(text@)),
{
    if begins_with(text, "//") {
        let content = trim(strip_slashes(text));
        if content.is_empty() {
            writer.push_str("//");
        } else {
            writer.push_str("// ");
            writer.push_str(content);
            proof {
                let start = old(writer)@.text;
                assert(start + "// "@ + content@ =~= start + ("// "@ + content@));
            }
        }
    } else {
        writer.push_str(text);
    }
}

/// Prints the cells of a list up to its closing bracket, with one space
/// between each two.
fn print_cells(writer: &mut Writer, nodes: &Vec<SyntaxNode<'_>>)
    ensures
        final(writer)@ == old(writer)@.write(joined(cells_from(nodes_of(nodes@), 1))),
{
    let ghost all = nodes_of(nodes@);
    let ghost start = writer@;
    let ghost mut done: Seq<Seq<char>> = seq![];
    let mut first: bool = true;
    let mut k: usize = 1;
    assert(done + cells_from(all, 1) =~= cells_from(all, 1));
    assert(start.text + joined(done) =~= start.text);
    while k < nodes.len() && classify(nodes[k].kind) != Kind::AngleClose
        invariant
            all == nodes_of(nodes@),
            1 <= k,
            first == (done.len() == 0),
            done + cells_from(all, k as int) == cells_from(all, 1),
            writer@ == start.write(joined(done)),
        decreases nodes@.len() - k,
    {
        let ghost text = all[k as int].text;
        if first {
            first = false;
        } else {
            writer.push_str(" ");
        }
        writer.push_str(nodes[k].text);
        proof {
            let next = done.push(text);
            assert(next.drop_last() =~= done);
            assert(done + (seq![text] + cells_from(all, k + 1)) =~= next + cells_from(all, k + 1));
            if done.len() > 0 {
                assert(start.text + joined(done) + " "@ + text =~= start.text + joined(next));
            } else {
                assert(start.text + joined(done) + text =~= start.text + joined(next));
            }
            done = next;
        }
        k += 1;
    }
    assert(done + Seq::<Seq<char>>::empty() =~= done);
}

/// Prints a byte string.
fn print_byte_string(writer: &mut Writer, text: &str, ctx: &Context)
    requires
        text@.len() >= 2,
    ensures
        final(writer)@ == old(writer)@.write(byte_string_text(text@, ctx.indent as nat)),
{
    let ghost start = writer@;
    let len: usize = text.unicode_len();
    let bytes = split_words(text.substring_char(1, len - 1));
    let ghost all = texts(bytes@);
    let n: usize = bytes.len();
    if n <= BYTES_PER_LINE {
        writer.push_str("[");
        writer.push_str(join_words(&bytes, 0, n).as_str());
        writer.push_str("]");
        proof {
            assert(all.subrange(0, n as int) =~= all);
            assert(writer@.text =~= start.text + byte_string_text(text@, ctx.indent as nat));
        }
        return;
    }
    writer.push_str("[\n");
    let ghost open = writer@.text;
    let mut k: usize = 0;
    while k < n
        invariant
            all == texts(bytes@),
            n == bytes@.len(),
            k <= n,
            writer@.warnings == start.warnings,
            writer@.text + byte_lines(all, k as int, ctx.indent as nat) == open + byte_lines(all, 0, ctx.indent as nat),
        decreases n - k,
    {
        let end: usize = if n - k <= BYTES_PER_LINE {
            n
        } else {
            k + BYTES_PER_LINE
        };
        let ghost done = writer@.text;
        writer.print_indent(ctx);
        writer.push_str(join_words(&bytes, k, end).as_str());
        writer.push_str("\n");
        proof {
            let line = spaces(2 * ctx.indent as nat) + joined(all.subrange(k as int, end as int))
                + "\n"@;
            let rest = byte_lines(all, end as int, ctx.indent as nat);
            assert(writer@.text =~= done + line);
            assert(done + (line + rest) =~= done + line + rest);
        }
        k = end;
    }
    assert(writer@.text =~= open + byte_lines(all, 0, ctx.indent as nat));
    writer.print_indent(&ctx.dec(1));
    writer.push_str("]");
    assert(writer@.text =~= start.text + byte_string_text(text@, ctx.indent as nat));
}

/// Words the warning for a node that the printer has no rule for.
fn unhandled_warning(node: &SyntaxNode<'_>) -> (r: String)
    ensures
        r@ == unhandled(node@),
{
    proof {
        lemma_children(*node);
    }
    let mut r = String::new();
    r.append("unhandled type '");
    r.append(node.kind);
    r.append("' (");
    r.append(to_decimal(node.children.len()).as_str());
    if node.children.len() == 1 {
        r.append(" child): ");
    } else {
        r.append(" children): ");
    }
    r.append(node.text);
    assert(r@ =~= unhandled(node@));
    r
}

/// Reads the text of the child at an index, or of the last one where there
/// are fewer.
fn get_child_text<'a>(node: &SyntaxNode<'a>, k: usize) -> (text: &'a str)
    requires
        node.children@.len() > 0,
    ensures
        text@ == child_text(node@, k as int),
{
    proof {
        lemma_children(*node);
    }
    if k < node.children.len() {
        node.children[k].text
    } else {
        node.children[node.children.len() - 1].text
    }
}

/// Prints a macro definition, or the block of those that it starts.
fn print_define(writer: &mut Writer, nodes: &Vec<SyntaxNode<'_>>, i: usize, ctx: &Context)
    requires
        i < nodes@.len(),
        node_kind(nodes@[i as int]@) == Kind::PreprocDef,
    ensures
        final(writer)@ == printed_define(nodes_of(nodes@), i as int, *ctx, old(writer)@),
{
    if ctx.config.align_define && is_define_block_start(nodes, i) {
        print_define_block(writer, nodes, i, ctx);
    } else if ctx.config.align_define && is_define_block_member(nodes, i) {
        writer.newline_if(is_last_directive(nodes, i));
        return;
    } else {
        print_plain_define(writer, &nodes[i], ctx);
    }
    writer.newline_if(is_last_directive(nodes, i));
}

/// Prints the node at an index of a list of siblings.
pub fn traverse(writer: &mut Writer, nodes: &Vec<SyntaxNode<'_>>, i: usize, ctx: &Context)
    requires
        i < nodes@.len(),
        well_shaped(nodes@[i as int]@),
    ensures
        final(writer)@ == printed(nodes_of(nodes@), i as int, *ctx, old(writer)@),
    decreases nodes_of(nodes@)[i as int], 0int,
{
    let node = &nodes[i];
    let ghost all = nodes_of(nodes@);
    proof {
        lemma_children(*node);
        assert(all[i as int] == node@);
        assert(has_parts(node@));
    }
    let kind = classify(node.kind);
    match kind {
        Kind::FileVersion | Kind::Plugin => {
            writer.push_str(node.text);
            writer.push_str("\n\n");
        },
        Kind::Comment => {
            let apart = match lookbehind(nodes, i) {
                Some(before) => before != Kind::Comment && before != Kind::BraceOpen,
                None => false,
            };
            if apart {
                writer.sep();
            }
            writer.print_indent(ctx);
            print_comment(writer, node.text);
            writer.push_str("\n");
        },
        Kind::DtsiInclude => {
            writer.print_indent(ctx);
            writer.push_str("/include/ ");
            writer.push_str(get_child_text(node, 1));
            writer.push_str("\n");
            let last = match lookahead(nodes, i) {
                Some(after) => after != Kind::DtsiInclude,
                None => false,
            };
            writer.newline_if(last);
        },
        Kind::PreprocInclude => {
            writer.print_indent(ctx);
            writer.push_str("#include ");
            writer.push_str(get_child_text(node, 1));
            writer.push_str("\n");
            writer.newline_if(is_last_directive(nodes, i));
        },
        Kind::PreprocDef => {
            print_define(writer, nodes, i, ctx);
        },
        Kind::PreprocFunctionDef => {
            writer.push_str("#define ");
            writer.push_str(get_child_text(node, 1));
            writer.push_str(get_child_text(node, 2));
            writer.push_str(" ");
            writer.push_str(get_child_text(node, 3));
            writer.push_str("\n");
            writer.newline_if(is_last_directive(nodes, i));
        },
        Kind::PreprocIfdef => {
            writer.print_indent(ctx);
            writer.push_str(trim(get_child_text(node, 0)));
            writer.push_str(" ");
            writer.push_str(get_child_text(node, 1));
            writer.push_str("\n");
            traverse_range(writer, &node.children, 2, node.children.len(), ctx);
            writer.print_indent(ctx);
            writer.push_str("#endif\n");
            writer.newline_if(is_last_directive(nodes, i));
        },
        Kind::Identifier | Kind::StringLiteral | Kind::UnitAddress | Kind::Path => {
            writer.push_str(node.text);
        },
        Kind::Reference => {
            traverse_range(writer, &node.children, 0, node.children.len(), ctx);
        },
        Kind::Node | Kind::Property | Kind::DeleteNode | Kind::DeleteProperty => {
            writer.print_indent(ctx);
            let name = get_child_text(node, 0);
            let inner = ctx.inc(1);
            let inner = if same(name, "keymap") {
                inner.keymap()
            } else if same(name, "bindings") {
                inner.bindings()
            } else {
                inner
            };
            traverse_range(writer, &node.children, 0, node.children.len(), &inner);
            let before_node = match lookahead(nodes, i) {
                Some(after) => after == Kind::Node && (kind == Kind::Property || kind
                    == Kind::Node),
                None => false,
            };
            writer.newline_if(before_node);
        },
        Kind::ByteStringLiteral => {
            print_byte_string(writer, node.text, ctx);
        },
        Kind::IntegerCells => {
            if ctx.has_zephyr_syntax() {
                print_bindings(writer, &node.children, ctx);
            } else {
                writer.push_str("<");
                print_cells(writer, &node.children);
                writer.push_str(">");
            }
        },
        Kind::At => writer.push_str("@"),
        Kind::Ampersand => writer.push_str("&"),
        Kind::PathOpen => writer.push_str("&{"),
        Kind::BraceClose => {
            writer.print_indent(&ctx.dec(1));
            writer.push_str("}");
        },
        Kind::BraceOpen => writer.push_str(" {\n"),
        Kind::Colon => writer.push_str(": "),
        Kind::Semicolon => writer.push_str(";\n"),
        Kind::Comma => writer.push_str(", "),
        Kind::Equals => writer.push_str(" = "),
        Kind::DeleteNodeWord | Kind::DeletePropertyWord => {
            writer.push_str(node.kind);
            writer.push_str(" ");
        },
        Kind::AngleClose | Kind::Other => {
            if ctx.config.warn_on_unhandled_tokens {
                writer.warn(unhandled_warning(node));
            }
            if node.children.len() > 0 {
                traverse_range(writer, &node.children, 0, 1, ctx);
                traverse_range(writer, &node.children, 1, node.children.len(), &ctx.inc(1));
            }
        },
    }
}

/// Prints the nodes between two indices of a list of siblings.
pub fn traverse_range(
    writer: &mut Writer,
    nodes: &Vec<SyntaxNode<'_>>,
    from: usize,
    to: usize,
    ctx: &Context,
)
    requires
        to <= nodes@.len(),
        forall|i: int| 0 <= i < nodes@.len() ==> well_shaped(#[trigger] nodes_of(nodes@)[i]),
    ensures
        final(writer)@ == printed_range(
            nodes_of(nodes@),
            from as int,
            to as int,
            *ctx,
            old(writer)@,
        ),
    decreases nodes_of(nodes@), to as int,
{
    let ghost all = nodes_of(nodes@);
    let ghost start = writer@;
    let mut k: usize = from;
    while k < to
        invariant
            all == nodes_of(nodes@),
            to <= nodes@.len(),
            from <= k,
            k <= to || k == from,
            forall|i: int| 0 <= i < nodes@.len() ==> well_shaped(#[trigger] all[i]),
            writer@ == printed_range(all, from as int, k as int, *ctx, start),
        decreases to - k,
    {
        assert(well_shaped(all[k as int]));
        traverse(writer, nodes, k, ctx);
        k += 1;
    }
}

/// The place where the printer starts.
pub open spec fn outermost(config: Config) -> Context {
    Context { indent: 0, bindings: false, keymap: false, config: config }
}

/// An empty page.
pub open spec fn empty_page() -> Page {
    Page { text: seq![], warnings: seq![] }
}

/// The page of a document: its nodes one after the other, or the document node
/// itself where it has none.
pub open spec fn document(root: Syntax, config: Config) -> Page {
    let n = root.children.len() as int;
    if n > 0 {
        printed_range(root.children, 0, n, outermost(config), empty_page())
    } else {
        printed(seq![root], 0, outermost(config), empty_page())
    }
}

/// The page of a source: that of its syntax tree where it has one with the
/// parts that the printer reads, and the source itself where it has none.
pub open spec fn formatted(source: Seq<char>, config: Config) -> Page {
    match source_syntax(source) {
        Some(root) => if well_shaped(root) {
            document(root, config)
        } else {
            Page { text: source, warnings: seq![] }
        },
        None => Page { text: source, warnings: seq![] },
    }
}

/// Prints a syntax tree.
pub fn print_tree(root: SyntaxNode<'_>, config: &Config) -> (r: Writer)
    requires
        well_shaped(root@),
    ensures
        r@ == document(root@, *config),
{
    let mut writer = Writer::new();
    let ctx = Context { indent: 0, bindings: false, keymap: false, config: *config };
    proof {
        lemma_children(root);
    }
    if root.children.len() > 0 {
        traverse_range(&mut writer, &root.children, 0, root.children.len(), &ctx);
    } else {
        let ghost node = root@;
        let nodes = vec![root];
        assert(nodes_of(nodes@) =~= seq![node]);
        traverse(&mut writer, &nodes, 0, &ctx);
    }
    writer
}

/// Formats a source, and collects the warnings that come up.
pub fn render(source: &str, config: &Config) -> (r: Writer)
    ensures
        r@ == formatted(source@, *config),
{
    if let Some(tree) = parse(source) {
        if let Some(root) = read(tree.root_node(), source) {
            if is_well_shaped(&root) {
                return print_tree(root, config);
            }
        }
    }
    let r = Writer { text: source.to_owned(), warnings: Vec::new() };
    assert(r@ =~= (Page { text: source@, warnings: seq![] }));
    r
}

/// Formats a source.
pub fn print(source: &String, config: &Config) -> (r: String)
    ensures
        r@ == formatted(source@, *config).text,
{
    render(source.as_str(), config).text
}

} // verus!
