//! What each kind of node, by its name in the grammar, adds to a page.
use vstd::prelude::*;
use vstd::string::*;

use crate::context::{inside, Context};
use crate::kind::{kind_of, Kind};
use crate::laws::printing::law_range_appends;
use crate::laws::texts::{
    is_blank, is_tight, law_slashes_are_stripped_in_pairs, law_trimming_keeps_the_middle,
};
use crate::printer::{cells_from, comment_text, printed, printed_range, unhandled};
use crate::syntax::{ends_directives, Syntax};
use crate::text::{begins, decimal, joined, spaces, trimmed, without_slashes};
use crate::writer::Page;

verus! {

/// The kind is told by the name, one name for each kind.
pub proof fn law_kind_by_name(name: Seq<char>)
    ensures
        (kind_of(name) == Kind::FileVersion) == (name == "file_version"@),
        (kind_of(name) == Kind::Plugin) == (name == "plugin"@),
        (kind_of(name) == Kind::Comment) == (name == "comment"@),
        (kind_of(name) == Kind::DtsiInclude) == (name == "dtsi_include"@),
        (kind_of(name) == Kind::PreprocInclude) == (name == "preproc_include"@),
        (kind_of(name) == Kind::PreprocDef) == (name == "preproc_def"@),
        (kind_of(name) == Kind::PreprocFunctionDef) == (name == "preproc_function_def"@),
        (kind_of(name) == Kind::PreprocIfdef) == (name == "preproc_ifdef"@),
        (kind_of(name) == Kind::Identifier) == (name == "identifier"@),
        (kind_of(name) == Kind::StringLiteral) == (name == "string_literal"@),
        (kind_of(name) == Kind::UnitAddress) == (name == "unit_address"@),
        (kind_of(name) == Kind::Path) == (name == "path"@),
        (kind_of(name) == Kind::Reference) == (name == "reference"@),
        (kind_of(name) == Kind::Node) == (name == "node"@),
        (kind_of(name) == Kind::Property) == (name == "property"@),
        (kind_of(name) == Kind::DeleteNode) == (name == "delete_node"@),
        (kind_of(name) == Kind::DeleteProperty) == (name == "delete_property"@),
        (kind_of(name) == Kind::ByteStringLiteral) == (name == "byte_string_literal"@),
        (kind_of(name) == Kind::IntegerCells) == (name == "integer_cells"@),
        (kind_of(name) == Kind::At) == (name == "@"@),
        (kind_of(name) == Kind::Ampersand) == (name == "&"@),
        (kind_of(name) == Kind::PathOpen) == (name == "&{"@),
        (kind_of(name) == Kind::BraceClose) == (name == "}"@),
        (kind_of(name) == Kind::BraceOpen) == (name == "{"@),
        (kind_of(name) == Kind::Colon) == (name == ":"@),
        (kind_of(name) == Kind::Semicolon) == (name == ";"@),
        (kind_of(name) == Kind::Comma) == (name == ","@),
        (kind_of(name) == Kind::Equals) == (name == "="@),
        (kind_of(name) == Kind::DeleteNodeWord) == (name == "/delete-node/"@),
        (kind_of(name) == Kind::DeletePropertyWord) == (name == "/delete-property/"@),
        (kind_of(name) == Kind::AngleClose) == (name == ">"@),
{
    reveal_strlit("file_version");
    reveal_strlit("plugin");
    reveal_strlit("comment");
    reveal_strlit("dtsi_include");
    reveal_strlit("preproc_include");
    reveal_strlit("preproc_def");
    reveal_strlit("preproc_function_def");
    reveal_strlit("preproc_ifdef");
    reveal_strlit("identifier");
    reveal_strlit("string_literal");
    reveal_strlit("unit_address");
    reveal_strlit("path");
    reveal_strlit("reference");
    reveal_strlit("node");
    reveal_strlit("property");
    reveal_strlit("delete_node");
    reveal_strlit("delete_property");
    reveal_strlit("byte_string_literal");
    reveal_strlit("integer_cells");
    reveal_strlit("@");
    reveal_strlit("&");
    reveal_strlit("&{");
    reveal_strlit("}");
    reveal_strlit("{");
    reveal_strlit(":");
    reveal_strlit(";");
    reveal_strlit(",");
    reveal_strlit("=");
    reveal_strlit("/delete-node/");
    reveal_strlit("/delete-property/");
    reveal_strlit(">");
    assert("file_version"@.len() == 12 && "file_version"@[0] == 'f');
    assert("plugin"@.len() == 6 && "plugin"@[0] == 'p');
    assert("comment"@.len() == 7 && "comment"@[0] == 'c');
    assert("dtsi_include"@.len() == 12 && "dtsi_include"@[0] == 'd');
    assert("preproc_include"@.len() == 15 && "preproc_include"@[0] == 'p');
    assert("preproc_def"@.len() == 11 && "preproc_def"@[0] == 'p');
    assert("preproc_function_def"@.len() == 20 && "preproc_function_def"@[0] == 'p');
    assert("preproc_ifdef"@.len() == 13 && "preproc_ifdef"@[0] == 'p');
    assert("identifier"@.len() == 10 && "identifier"@[0] == 'i');
    assert("string_literal"@.len() == 14 && "string_literal"@[0] == 's');
    assert("unit_address"@.len() == 12 && "unit_address"@[0] == 'u');
    assert("path"@.len() == 4 && "path"@[0] == 'p');
    assert("reference"@.len() == 9 && "reference"@[0] == 'r');
    assert("node"@.len() == 4 && "node"@[0] == 'n');
    assert("property"@.len() == 8 && "property"@[0] == 'p');
    assert("delete_node"@.len() == 11 && "delete_node"@[0] == 'd');
    assert("delete_property"@.len() == 15 && "delete_property"@[0] == 'd');
    assert("byte_string_literal"@.len() == 19 && "byte_string_literal"@[0] == 'b');
    assert("integer_cells"@.len() == 13 && "integer_cells"@[0] == 'i');
    assert("@"@.len() == 1 && "@"@[0] == '@');
    assert("&"@.len() == 1 && "&"@[0] == '&');
    assert("&{"@.len() == 2 && "&{"@[0] == '&');
    assert("}"@.len() == 1 && "}"@[0] == '}');
    assert("{"@.len() == 1 && "{"@[0] == '{');
    assert(":"@.len() == 1 && ":"@[0] == ':');
    assert(";"@.len() == 1 && ";"@[0] == ';');
    assert(","@.len() == 1 && ","@[0] == ',');
    assert("="@.len() == 1 && "="@[0] == '=');
    assert("/delete-node/"@.len() == 13 && "/delete-node/"@[0] == '/');
    assert("/delete-property/"@.len() == 17 && "/delete-property/"@[0] == '/');
    assert(">"@.len() == 1 && ">"@[0] == '>');
}

/// The child at an index, or the last one where there are fewer.
pub open spec fn child_at(node: Syntax, k: int) -> Syntax {
    node.children[if k < node.children.len() {
        k
    } else {
        node.children.len() - 1
    }]
}

/// Whether a node is a preprocessor directive, by its name.
pub open spec fn is_directive(node: Syntax) -> bool {
    ||| node.kind == "preproc_include"@
    ||| node.kind == "preproc_ifdef"@
    ||| node.kind == "preproc_def"@
    ||| node.kind == "preproc_function_def"@
}

/// The blank line behind a directive: there is one where something other than a
/// directive follows.
pub open spec fn gap_behind_directive(nodes: Seq<Syntax>, i: int) -> Seq<char> {
    if i + 1 < nodes.len() && !is_directive(nodes[i + 1]) {
        "\n"@
    } else {
        Seq::empty()
    }
}

/// Whether the node at an index adds a text to a page, and no warning.
pub open spec fn adds(
    nodes: Seq<Syntax>,
    i: int,
    ctx: Context,
    page: Page,
    text: Seq<char>,
) -> bool {
    &&& printed(nodes, i, ctx, page).text == page.text + text
    &&& printed(nodes, i, ctx, page).warnings == page.warnings
}

/// The kinds of a node and of the next, and what a directive adds behind it.
pub(crate) proof fn lemma_neighbours(nodes: Seq<Syntax>, i: int)
    requires
        0 <= i < nodes.len(),
    ensures
        ends_directives(nodes, i) == (gap_behind_directive(nodes, i).len() > 0),
        gap_behind_directive(nodes, i) == if ends_directives(nodes, i) {
            "\n"@
        } else {
            Seq::empty()
        },
{
    reveal_strlit("\n");
    if i + 1 < nodes.len() {
        law_kind_by_name(nodes[i + 1].kind);
    }
}

/// Names, strings, addresses and paths are printed character for character.
pub proof fn law_names_and_strings_are_kept(nodes: Seq<Syntax>, i: int, ctx: Context, page: Page)
    requires
        nodes[i].kind == "identifier"@ || nodes[i].kind == "string_literal"@ || nodes[i].kind
            == "unit_address"@ || nodes[i].kind == "path"@,
    ensures
        adds(nodes, i, ctx, page, nodes[i].text),
{
    law_kind_by_name(nodes[i].kind);
}

/// A version line and a plugin line are printed character for character, with a
/// blank line behind.
pub proof fn law_version_lines_are_kept(nodes: Seq<Syntax>, i: int, ctx: Context, page: Page)
    requires
        nodes[i].kind == "file_version"@ || nodes[i].kind == "plugin"@,
    ensures
        adds(nodes, i, ctx, page, nodes[i].text + seq!['\n', '\n']),
{
    law_kind_by_name(nodes[i].kind);
    reveal_strlit("\n\n");
    assert("\n\n"@ =~= seq!['\n', '\n']);
    assert(page.text + nodes[i].text + "\n\n"@ =~= page.text + (nodes[i].text + "\n\n"@));
}

/// Punctuation is printed with the space that reads well around it, at every
/// place alike.
pub proof fn law_punctuation(nodes: Seq<Syntax>, i: int, ctx: Context, page: Page)
    ensures
        nodes[i].kind == "@"@ ==> adds(nodes, i, ctx, page, seq!['@']),
        nodes[i].kind == "&"@ ==> adds(nodes, i, ctx, page, seq!['&']),
        nodes[i].kind == "&{"@ ==> adds(nodes, i, ctx, page, seq!['&', '{']),
        nodes[i].kind == "{"@ ==> adds(nodes, i, ctx, page, seq![' ', '{', '\n']),
        nodes[i].kind == ":"@ ==> adds(nodes, i, ctx, page, seq![':', ' ']),
        nodes[i].kind == ";"@ ==> adds(nodes, i, ctx, page, seq![';', '\n']),
        nodes[i].kind == ","@ ==> adds(nodes, i, ctx, page, seq![',', ' ']),
        nodes[i].kind == "="@ ==> adds(nodes, i, ctx, page, seq![' ', '=', ' ']),
        nodes[i].kind == "/delete-node/"@ || nodes[i].kind == "/delete-property/"@ ==> adds(
            nodes,
            i,
            ctx,
            page,
            nodes[i].kind + seq![' '],
        ),
{
    law_kind_by_name(nodes[i].kind);
    reveal_strlit("@");
    reveal_strlit("&");
    reveal_strlit("&{");
    reveal_strlit(" {\n");
    reveal_strlit(": ");
    reveal_strlit(";\n");
    reveal_strlit(", ");
    reveal_strlit(" = ");
    reveal_strlit(" ");
    assert("@"@ =~= seq!['@']);
    assert("&"@ =~= seq!['&']);
    assert("&{"@ =~= seq!['&', '{']);
    assert(" {\n"@ =~= seq![' ', '{', '\n']);
    assert(": "@ =~= seq![':', ' ']);
    assert(";\n"@ =~= seq![';', '\n']);
    assert(", "@ =~= seq![',', ' ']);
    assert(" = "@ =~= seq![' ', '=', ' ']);
    assert(" "@ =~= seq![' ']);
    assert(page.text + nodes[i].kind + " "@ =~= page.text + (nodes[i].kind + " "@));
}

/// A closing brace stands one level less deep than what it closes.
pub proof fn law_closing_brace(nodes: Seq<Syntax>, i: int, ctx: Context, page: Page)
    requires
        nodes[i].kind == "}"@,
    ensures
        ctx.indent > 0 ==> adds(
            nodes,
            i,
            ctx,
            page,
            spaces((2 * ctx.indent - 2) as nat) + seq!['}'],
        ),
        ctx.indent == 0 ==> adds(nodes, i, ctx, page, seq!['}']),
{
    law_kind_by_name(nodes[i].kind);
    reveal_strlit("}");
    assert("}"@ =~= seq!['}']);
    if ctx.indent > 0 {
        let margin = spaces((2 * ctx.indent - 2) as nat);
        assert(page.text + margin + "}"@ =~= page.text + (margin + "}"@));
    } else {
        assert(page.text + spaces(0) + "}"@ =~= page.text + "}"@);
    }
}

/// A comment that does not begin with two slashes is kept character for
/// character.
pub proof fn law_block_comments_are_kept(text: Seq<char>)
    requires
        !(text.len() >= 2 && text[0] == '/' && text[1] == '/'),
    ensures
        comment_text(text) == text,
{
    reveal_strlit("//");
    if begins(text, "//"@) {
        assert(text.take(2)[0] == '/' && text.take(2)[1] == '/');
    }
}

/// A line comment is its slashes, white space, its content and white space: it
/// is printed as two slashes, one space and all of the content, or as the two
/// slashes alone where there is no content.
pub proof fn law_line_comments_keep_their_content(text: Seq<char>) -> (parts: (
    nat,
    Seq<char>,
    Seq<char>,
    Seq<char>,
))
    requires
        text.len() >= 2 && text[0] == '/' && text[1] == '/',
    ensures
        ({
            let (pairs, lead, content, tail) = parts;
            let rest = lead + content + tail;
            &&& pairs >= 1
            &&& text.len() == 2 * pairs + rest.len()
            &&& forall|i: int| 0 <= i < 2 * pairs ==> #[trigger] text[i] == '/'
            &&& text.skip((2 * pairs) as int) == rest
            &&& !(rest.len() >= 2 && rest[0] == '/' && rest[1] == '/')
            &&& is_blank(lead) && is_tight(content) && is_blank(tail)
            &&& comment_text(text) == if content.len() == 0 {
                seq!['/', '/']
            } else {
                seq!['/', '/', ' '] + content
            }
        }),
{
    reveal_strlit("//");
    reveal_strlit("// ");
    assert("//"@ =~= seq!['/', '/']);
    assert("// "@ =~= seq!['/', '/', ' ']);
    assert(text.take(2) =~= "//"@);
    let pairs = law_slashes_are_stripped_in_pairs(text);
    let (lead, tail) = law_trimming_keeps_the_middle(without_slashes(text));
    (pairs, lead, trimmed(without_slashes(text)), tail)
}

/// The line break in front of a comment: there is one where something other than
/// a comment and an opening brace precedes it and no blank line does.
pub open spec fn gap_before_comment(nodes: Seq<Syntax>, i: int, text: Seq<char>) -> Seq<char> {
    let n = text.len();
    let is_apart = i > 0 && nodes[i - 1].kind != "comment"@ && nodes[i - 1].kind != "{"@;
    let is_behind_blank_line = n >= 2 && text[n - 1] == '\n' && text[n - 2] == '\n';
    if is_apart && !is_behind_blank_line {
        seq!['\n']
    } else {
        Seq::empty()
    }
}

/// A comment stands on a line of its own, indented like its place, and with a
/// blank line before it where it does not continue a comment or begin a body.
pub proof fn law_comment_takes_a_line(nodes: Seq<Syntax>, i: int, ctx: Context, page: Page)
    requires
        0 <= i < nodes.len(),
        nodes[i].kind == "comment"@,
    ensures
        adds(
            nodes,
            i,
            ctx,
            page,
            gap_before_comment(nodes, i, page.text) + spaces(2 * ctx.indent as nat) + comment_text(
                nodes[i].text,
            ) + seq!['\n'],
        ),
{
    law_kind_by_name(nodes[i].kind);
    if i > 0 {
        law_kind_by_name(nodes[i - 1].kind);
    }
    reveal_strlit("\n");
    reveal_strlit("\n\n");
    assert("\n"@ =~= seq!['\n']);
    let text = page.text;
    let n = text.len();
    if n >= 2 {
        let end = text.skip(n - 2);
        assert(end[0] == text[n - 2] && end[1] == text[n - 1]);
        if text[n - 1] == '\n' && text[n - 2] == '\n' {
            assert(end =~= "\n\n"@);
        }
    }
    let gap = gap_before_comment(nodes, i, text);
    let margin = spaces(2 * ctx.indent as nat);
    let body = comment_text(nodes[i].text);
    assert(printed(nodes, i, ctx, page).text =~= text + (gap + margin + body + "\n"@));
}

/// An inclusion in the language of the source is one line with the second part
/// as it stands, and a blank line behind where something else follows.
pub proof fn law_source_inclusions(nodes: Seq<Syntax>, i: int, ctx: Context, page: Page)
    requires
        0 <= i < nodes.len(),
        nodes[i].kind == "dtsi_include"@,
        nodes[i].children.len() > 0,
    ensures
        adds(
            nodes,
            i,
            ctx,
            page,
            spaces(2 * ctx.indent as nat) + "/include/ "@ + child_at(nodes[i], 1).text + "\n"@ + (
            if i + 1 < nodes.len() && nodes[i + 1].kind != "dtsi_include"@ {
                "\n"@
            } else {
                Seq::empty()
            }),
        ),
{
    law_kind_by_name(nodes[i].kind);
    if i + 1 < nodes.len() {
        law_kind_by_name(nodes[i + 1].kind);
    }
    let line = spaces(2 * ctx.indent as nat) + "/include/ "@ + child_at(nodes[i], 1).text + "\n"@;
    assert(page.text + spaces(2 * ctx.indent as nat) + "/include/ "@ + child_at(nodes[i], 1).text
        + "\n"@ =~= page.text + line);
    assert(page.text + line + "\n"@ =~= page.text + (line + "\n"@));
    assert(line + Seq::<char>::empty() =~= line);
}

/// A preprocessor inclusion is one line with the second part as it stands.
pub proof fn law_preprocessor_inclusions(nodes: Seq<Syntax>, i: int, ctx: Context, page: Page)
    requires
        0 <= i < nodes.len(),
        nodes[i].kind == "preproc_include"@,
        nodes[i].children.len() > 0,
    ensures
        adds(
            nodes,
            i,
            ctx,
            page,
            spaces(2 * ctx.indent as nat) + "#include "@ + child_at(nodes[i], 1).text + "\n"@
                + gap_behind_directive(nodes, i),
        ),
{
    law_kind_by_name(nodes[i].kind);
    lemma_neighbours(nodes, i);
    let line = spaces(2 * ctx.indent as nat) + "#include "@ + child_at(nodes[i], 1).text + "\n"@;
    assert(page.text + spaces(2 * ctx.indent as nat) + "#include "@ + child_at(nodes[i], 1).text
        + "\n"@ =~= page.text + line);
    assert(page.text + line + "\n"@ =~= page.text + (line + "\n"@));
    assert(line + Seq::<char>::empty() =~= line);
}

/// A macro with parameters is one line: its name and parameters as they stand,
/// one space, and the value as it stands.
pub proof fn law_function_macros(nodes: Seq<Syntax>, i: int, ctx: Context, page: Page)
    requires
        0 <= i < nodes.len(),
        nodes[i].kind == "preproc_function_def"@,
        nodes[i].children.len() > 0,
    ensures
        adds(
            nodes,
            i,
            ctx,
            page,
            "#define "@ + child_at(nodes[i], 1).text + child_at(nodes[i], 2).text + seq![' ']
                + child_at(nodes[i], 3).text + "\n"@ + gap_behind_directive(nodes, i),
        ),
{
    law_kind_by_name(nodes[i].kind);
    lemma_neighbours(nodes, i);
    reveal_strlit(" ");
    assert(" "@ =~= seq![' ']);
    let name = child_at(nodes[i], 1).text;
    let parameters = child_at(nodes[i], 2).text;
    let value = child_at(nodes[i], 3).text;
    let line = "#define "@ + name + parameters + " "@ + value + "\n"@;
    assert(page.text + "#define "@ + name + parameters + " "@ + value + "\n"@ =~= page.text
        + line);
    assert(page.text + line + "\n"@ =~= page.text + (line + "\n"@));
    assert(line + Seq::<char>::empty() =~= line);
}

/// A conditional is printed, at every place, as the line of its directive, its
/// body and a line that closes it, both lines indented like the place. The body
/// is what the nodes behind the name add to the page.
pub proof fn law_conditionals_are_closed(
    nodes: Seq<Syntax>,
    i: int,
    ctx: Context,
    page: Page,
) -> (body: Seq<char>)
    requires
        0 <= i < nodes.len(),
        nodes[i].kind == "preproc_ifdef"@,
        nodes[i].children.len() > 0,
    ensures
        ({
            let node = nodes[i];
            let margin = spaces(2 * ctx.indent as nat);
            let head = margin + trimmed(child_at(node, 0).text) + seq![' '] + child_at(
                node,
                1,
            ).text + seq!['\n'];
            let opened = Page { text: page.text + head, warnings: page.warnings };
            let inner = printed_range(node.children, 2, node.children.len() as int, ctx, opened);
            &&& inner.text == page.text + head + body
            &&& printed(nodes, i, ctx, page).text == page.text + head + body + margin + seq![
                '#',
                'e',
                'n',
                'd',
                'i',
                'f',
                '\n',
            ] + gap_behind_directive(nodes, i)
            &&& printed(nodes, i, ctx, page).warnings == inner.warnings
        }),
{
    law_kind_by_name(nodes[i].kind);
    lemma_neighbours(nodes, i);
    reveal_strlit(" ");
    reveal_strlit("\n");
    reveal_strlit("#endif\n");
    assert(" "@ =~= seq![' ']);
    assert("\n"@ =~= seq!['\n']);
    assert("#endif\n"@ =~= seq!['#', 'e', 'n', 'd', 'i', 'f', '\n']);
    let node = nodes[i];
    let n = node.children.len() as int;
    let margin = spaces(2 * ctx.indent as nat);
    let first = trimmed(child_at(node, 0).text);
    let name = child_at(node, 1).text;
    let head = margin + first + " "@ + name + "\n"@;
    let opened = Page { text: page.text + head, warnings: page.warnings };
    assert(page.text + margin + first + " "@ + name + "\n"@ =~= page.text + head);
    assert(page.indent(ctx).write(first).write(" "@).write(name).write("\n"@) == opened);
    let inner = printed_range(node.children, 2, n, ctx, opened);
    law_range_appends(node.children, 2, n, ctx, opened);
    let body = inner.text.skip(opened.text.len() as int);
    assert(inner.text =~= opened.text + body);
    assert(page.text + head + body + margin + "#endif\n"@ + Seq::<char>::empty() =~= page.text + head
        + body + margin + "#endif\n"@);
    body
}

/// The place inside an item: one level deeper, and inside a keymap or inside
/// bindings where the first part of the item says so.
pub open spec fn place_inside(ctx: Context, name: Seq<char>) -> Context {
    Context {
        indent: if ctx.indent < usize::MAX {
            (ctx.indent + 1) as usize
        } else {
            ctx.indent
        },
        keymap: ctx.keymap || name == "keymap"@,
        bindings: ctx.bindings || name == "bindings"@,
        config: ctx.config,
    }
}

/// A node, a property and a deletion are the parts that they have, all of them
/// and in order, behind the indentation of the place and printed one level
/// deeper. A blank line stands behind a node and behind a property where a node
/// follows.
pub proof fn law_items_print_all_their_parts(nodes: Seq<Syntax>, i: int, ctx: Context, page: Page)
    requires
        0 <= i < nodes.len(),
        nodes[i].kind == "node"@ || nodes[i].kind == "property"@ || nodes[i].kind
            == "delete_node"@ || nodes[i].kind == "delete_property"@,
        nodes[i].children.len() > 0,
    ensures
        ({
            let node = nodes[i];
            let started = Page {
                text: page.text + spaces(2 * ctx.indent as nat),
                warnings: page.warnings,
            };
            let inner = printed_range(
                node.children,
                0,
                node.children.len() as int,
                place_inside(ctx, node.children[0].text),
                started,
            );
            let is_before_node = (node.kind == "node"@ || node.kind == "property"@) && i + 1
                < nodes.len() && nodes[i + 1].kind == "node"@;
            &&& printed(nodes, i, ctx, page).text == inner.text + if is_before_node {
                seq!['\n']
            } else {
                Seq::empty()
            }
            &&& printed(nodes, i, ctx, page).warnings == inner.warnings
        }),
{
    law_kind_by_name(nodes[i].kind);
    if i + 1 < nodes.len() {
        law_kind_by_name(nodes[i + 1].kind);
    }
    reveal_strlit("\n");
    reveal_strlit("keymap");
    reveal_strlit("bindings");
    reveal_strlit("node");
    reveal_strlit("property");
    reveal_strlit("delete_node");
    reveal_strlit("delete_property");
    assert("\n"@ =~= seq!['\n']);
    let node = nodes[i];
    let n = node.children.len() as int;
    let inner = place_inside(ctx, node.children[0].text);
    assert("keymap"@.len() == 6 && "bindings"@.len() == 8);
    assert(inside(ctx, node.children[0].text) == inner);
    let done = printed_range(node.children, 0, n, inner, page.indent(ctx));
    assert(done.text + Seq::<char>::empty() =~= done.text);
}

/// A reference is the parts that it has, all of them and in order, at the place
/// where it stands.
pub proof fn law_references_print_all_their_parts(
    nodes: Seq<Syntax>,
    i: int,
    ctx: Context,
    page: Page,
)
    requires
        nodes[i].kind == "reference"@,
    ensures
        printed(nodes, i, ctx, page) == printed_range(
            nodes[i].children,
            0,
            nodes[i].children.len() as int,
            ctx,
            page,
        ),
{
    law_kind_by_name(nodes[i].kind);
}

/// The nodes of a range are printed one after the other, each on the page that
/// the one before it leaves, and none is left out.
pub proof fn law_ranges_print_node_by_node(
    nodes: Seq<Syntax>,
    from: int,
    to: int,
    ctx: Context,
    page: Page,
) -> (pages: Seq<Page>)
    requires
        0 <= from <= to <= nodes.len(),
    ensures
        pages.len() == to - from + 1,
        pages[0] == page,
        forall|k: int|
            0 <= k < to - from ==> #[trigger] pages[k + 1] == printed(
                nodes,
                from + k,
                ctx,
                pages[k],
            ),
        printed_range(nodes, from, to, ctx, page) == pages[to - from],
    decreases to - from,
{
    if from == to {
        seq![page]
    } else {
        let front = law_ranges_print_node_by_node(nodes, from, to - 1, ctx, page);
        let last = printed(nodes, to - 1, ctx, front[to - 1 - from]);
        let pages = front.push(last);
        assert forall|k: int| 0 <= k < to - from implies #[trigger] pages[k + 1] == printed(
            nodes,
            from + k,
            ctx,
            pages[k],
        ) by {
            if k + 1 < front.len() {
                assert(pages[k + 1] == front[k + 1]);
                assert(pages[k] == front[k]);
            } else {
                assert(pages[k] == front[k]);
            }
        }
        pages
    }
}

/// The cells of a list that is no keymap stand between brackets: the texts of
/// all its nodes between the first and the first closing bracket, in order, with
/// one space between each two.
pub proof fn law_no_cell_is_lost(
    nodes: Seq<Syntax>,
    i: int,
    ctx: Context,
    page: Page,
    end: int,
)
    requires
        nodes[i].kind == "integer_cells"@,
        !(ctx.keymap && ctx.bindings),
        1 <= end <= nodes[i].children.len(),
        forall|k: int| 1 <= k < end ==> (#[trigger] nodes[i].children[k]).kind != ">"@,
        end < nodes[i].children.len() ==> nodes[i].children[end].kind == ">"@,
    ensures
        adds(
            nodes,
            i,
            ctx,
            page,
            seq!['<'] + joined(
                Seq::new((end - 1) as nat, |k: int| nodes[i].children[k + 1].text),
            ) + seq!['>'],
        ),
{
    law_kind_by_name(nodes[i].kind);
    reveal_strlit("<");
    reveal_strlit(">");
    assert("<"@ =~= seq!['<']);
    assert(">"@ =~= seq!['>']);
    let cells = nodes[i].children;
    let inner = Seq::new((end - 1) as nat, |k: int| cells[k + 1].text);
    lemma_cells_between(cells, 1, end);
    assert(cells_from(cells, 1) =~= inner);
    assert(page.text + "<"@ + joined(inner) + ">"@ =~= page.text + ("<"@ + joined(inner) + ">"@));
}

/// The cells from an index up to the closing bracket, one by one.
proof fn lemma_cells_between(cells: Seq<Syntax>, k: int, end: int)
    requires
        1 <= k <= end <= cells.len(),
        forall|j: int| 1 <= j < end ==> (#[trigger] cells[j]).kind != ">"@,
        end < cells.len() ==> cells[end].kind == ">"@,
    ensures
        cells_from(cells, k).len() == end - k,
        forall|j: int|
            0 <= j < end - k ==> #[trigger] cells_from(cells, k)[j] == cells[k
                + j].text,
    decreases end - k,
{
    if k < cells.len() {
        law_kind_by_name(cells[k].kind);
    }
    if k < end {
        assert(cells[k].kind != ">"@);
        lemma_cells_between(cells, k + 1, end);
    }
}

/// Whether the printer has a rule for the name of a node.
pub open spec fn has_rule(name: Seq<char>) -> bool {
    ||| name == "file_version"@ || name == "plugin"@ || name == "comment"@
    ||| name == "dtsi_include"@ || name == "preproc_include"@ || name == "preproc_def"@
    ||| name == "preproc_function_def"@ || name == "preproc_ifdef"@
    ||| name == "identifier"@ || name == "string_literal"@ || name == "unit_address"@
    ||| name == "path"@ || name == "reference"@
    ||| name == "node"@ || name == "property"@ || name == "delete_node"@
    ||| name == "delete_property"@ || name == "byte_string_literal"@ || name == "integer_cells"@
    ||| name == "@"@ || name == "&"@ || name == "&{"@ || name == "}"@ || name == "{"@
    ||| name == ":"@ || name == ";"@ || name == ","@ || name == "="@
    ||| name == "/delete-node/"@ || name == "/delete-property/"@
}

/// A node without a rule is the parts that it has, all of them and in order: the
/// first at its place, the others one level deeper. It is reported, with its
/// name, the number of its children and its text, where warnings are on.
pub proof fn law_nodes_without_a_rule(nodes: Seq<Syntax>, i: int, ctx: Context, page: Page)
    requires
        !has_rule(nodes[i].kind),
    ensures
        ({
            let node = nodes[i];
            let n = node.children.len() as int;
            let warning = "unhandled type '"@ + node.kind + "' ("@ + decimal(n as nat)
                + " child"@ + (if n == 1 {
                Seq::empty()
            } else {
                "ren"@
            }) + "): "@ + node.text;
            let started = Page {
                text: page.text,
                warnings: if ctx.config.warn_on_unhandled_tokens {
                    page.warnings.push(warning)
                } else {
                    page.warnings
                },
            };
            let inner = Context {
                indent: if ctx.indent < usize::MAX {
                    (ctx.indent + 1) as usize
                } else {
                    ctx.indent
                },
                ..ctx
            };
            printed(nodes, i, ctx, page) == if n == 0 {
                started
            } else {
                printed_range(
                    node.children,
                    1,
                    n,
                    inner,
                    printed(node.children, 0, ctx, started),
                )
            }
        }),
{
    let node = nodes[i];
    law_kind_by_name(node.kind);
    reveal_strlit(" child");
    reveal_strlit("ren");
    reveal_strlit("): ");
    reveal_strlit(" child): ");
    reveal_strlit(" children): ");
    assert(" child): "@ =~= " child"@ + "): "@);
    assert(" children): "@ =~= " child"@ + "ren"@ + "): "@);
    let head = "unhandled type '"@ + node.kind + "' ("@ + decimal(node.children.len());
    assert(head + " child): "@ + node.text =~= head + " child"@ + Seq::<char>::empty() + "): "@
        + node.text);
    assert(head + " children): "@ + node.text =~= head + " child"@ + "ren"@ + "): "@ + node.text);
    if node.children.len() > 0 {
        let warned = if ctx.config.warn_on_unhandled_tokens {
            page.warn(unhandled(node))
        } else {
            page
        };
        assert(printed_range(node.children, 0, 0, ctx, warned) == warned);
        assert(printed_range(node.children, 0, 1, ctx, warned) == printed(
            node.children,
            0,
            ctx,
            warned,
        ));
    }
}

} // verus!
