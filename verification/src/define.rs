//! Macro definitions: their parts, and their alignment in a block.
use vstd::prelude::*;
use vstd::string::*;

use crate::context::Context;
use crate::kind::{classify, Kind};
use crate::syntax::{
    kind_before, lookbehind, node_kind, nodes_of, Syntax, SyntaxNode,
};
use crate::text::{byte_width, chars_vec, spaces, trim, trimmed, width};
use crate::writer::Writer;

verus! {

/// Where a scan of a macro value is: inside quotes, or after a backslash.
#[derive(Clone, Copy, PartialEq, Eq, Structural, Debug)]
pub struct Scan {
    /// Inside single quotes.
    pub single: bool,
    /// Inside double quotes.
    pub double: bool,
    /// Right behind a backslash.
    pub escaped: bool,
}

/// Where a scan is after one more character.
pub open spec fn scan_step(scan: Scan, c: char) -> Scan {
    if scan.escaped {
        Scan { escaped: false, ..scan }
    } else if c == '\\' {
        Scan { escaped: true, ..scan }
    } else if c == '\'' && !scan.double {
        Scan { single: !scan.single, ..scan }
    } else if c == '"' && !scan.single {
        Scan { double: !scan.double, ..scan }
    } else {
        scan
    }
}

/// Where a scan from the start of a text is.
pub open spec fn scan_of(text: Seq<char>) -> Scan
    decreases text.len(),
{
    if text.len() == 0 {
        Scan { single: false, double: false, escaped: false }
    } else {
        scan_step(scan_of(text.drop_last()), text.last())
    }
}

/// Whether a comment opens at an index: two slashes stand there, outside
/// quotes and not behind a backslash.
pub open spec fn opens_comment(raw: Seq<char>, k: int) -> bool {
    &&& 0 <= k < raw.len() - 1
    &&& raw[k] == '/'
    &&& raw[k + 1] == '/'
    &&& scan_of(raw.take(k)) == (Scan { single: false, double: false, escaped: false })
}

/// Whether the first comment opens at an index.
pub open spec fn first_comment(raw: Seq<char>, k: int) -> bool {
    opens_comment(raw, k) && forall|j: int| 0 <= j < k ==> !opens_comment(raw, j)
}

/// The value in the raw text of a macro: what stands before the first comment.
pub open spec fn define_value(raw: Seq<char>) -> Seq<char> {
    if exists|k: int| first_comment(raw, k) {
        trimmed(raw.take(choose|k: int| first_comment(raw, k)))
    } else {
        trimmed(raw)
    }
}

/// The comment in the raw text of a macro, where there is one that is not
/// blank.
pub open spec fn define_comment(raw: Seq<char>) -> Option<Seq<char>> {
    if exists|k: int| first_comment(raw, k) {
        let comment = trimmed(raw.skip((choose|k: int| first_comment(raw, k)) + 2));
        if comment.len() == 0 {
            None
        } else {
            Some(comment)
        }
    } else {
        None
    }
}

/// The characters of an optional string.
pub open spec fn text_of(s: Option<String>) -> Option<Seq<char>> {
    match s {
        Some(t) => Some(t@),
        None => None,
    }
}

/// There is at most one first comment.
proof fn lemma_first_comment(raw: Seq<char>, k: int)
    requires
        first_comment(raw, k),
    ensures
        (choose|j: int| first_comment(raw, j)) == k,
{
    let j = choose|j: int| first_comment(raw, j);
    assert(first_comment(raw, j));
}

/// Splits the raw text of a macro into its value and its comment.
pub fn split_define_value_comment(raw: &str) -> (r: (String, Option<String>))
    ensures
        r.0@ == define_value(raw@),
        text_of(r.1) == define_comment(raw@),
{
    let v = chars_vec(raw);
    let mut single: bool = false;
    let mut double: bool = false;
    let mut escaped: bool = false;
    let mut i: usize = 0;
    while i < v.len()
        invariant
            v@ == raw@,
            i <= v@.len(),
            scan_of(raw@.take(i as int)) == (Scan {
                single: single,
                double: double,
                escaped: escaped,
            }),
            forall|j: int| 0 <= j < i ==> !opens_comment(raw@, j),
        decreases v@.len() - i,
    {
        let c = v[i];
        proof {
            let next = raw@.take(i + 1);
            assert(next.drop_last() =~= raw@.take(i as int));
            assert(next.last() == c);
        }
        if escaped {
            escaped = false;
        } else if c == '\\' {
            escaped = true;
        } else if c == '\'' && !double {
            single = !single;
        } else if c == '"' && !single {
            double = !double;
        } else if c == '/' && !single && !double {
            if v.len() - i >= 2 && v[i + 1] == '/' {
                proof {
                    assert(opens_comment(raw@, i as int));
                    assert(first_comment(raw@, i as int));
                    lemma_first_comment(raw@, i as int);
                    assert(raw@.subrange(0, i as int) =~= raw@.take(i as int));
                    assert(raw@.subrange(i + 2, raw@.len() as int) =~= raw@.skip(i + 2));
                }
                let value = trim(raw.substring_char(0, i)).to_owned();
                let comment = trim(raw.substring_char(i + 2, v.len()));
                if comment.is_empty() {
                    return (value, None);
                }
                return (value, Some(comment.to_owned()));
            }
        }
        i += 1;
    }
    assert forall|k: int| !first_comment(raw@, k) by {
        if first_comment(raw@, k) {
            assert(opens_comment(raw@, k));
        }
    }
    (trim(raw).to_owned(), None)
}

/// The parts of a macro definition.
#[verifier::ext_equal]
pub struct DefineParts {
    /// The name of the macro.
    pub name: Seq<char>,
    /// The value, empty where there is none.
    pub value: Seq<char>,
    /// The comment behind the value.
    pub comment: Option<Seq<char>>,
}

/// A macro definition.
pub struct DefineLine {
    /// The name of the macro.
    pub name: String,
    /// The value, empty where there is none.
    pub value: String,
    /// The comment behind the value.
    pub comment: Option<String>,
}

impl View for DefineLine {
    type V = DefineParts;

    open spec fn view(&self) -> DefineParts {
        DefineParts { name: self.name@, value: self.value@, comment: text_of(self.comment) }
    }
}

/// The parts of the macro definition that a node holds.
pub open spec fn define_parts(node: Syntax) -> DefineParts {
    DefineParts {
        name: match node.name {
            Some(name) => trimmed(name),
            None => seq![],
        },
        value: match node.value {
            Some(raw) => define_value(raw),
            None => seq![],
        },
        comment: match node.value {
            Some(raw) => define_comment(raw),
            None => None,
        },
    }
}

/// Reads the macro definition that a node holds.
pub fn parse_define_line(node: &SyntaxNode<'_>) -> (line: DefineLine)
    ensures
        line@ == define_parts(node@),
{
    let name = match node.name {
        Some(name) => trim(name).to_owned(),
        None => String::new(),
    };
    let (value, comment) = match node.value {
        Some(raw) => split_define_value_comment(raw),
        None => (String::new(), None),
    };
    DefineLine { name, value, comment }
}

/// Whether a node is the first of a block of definitions.
pub open spec fn starts_block(nodes: Seq<Syntax>, i: int) -> bool {
    node_kind(nodes[i]) == Kind::PreprocDef && kind_before(nodes, i) != Some(Kind::PreprocDef)
}

/// Whether a node continues a block of definitions.
pub open spec fn continues_block(nodes: Seq<Syntax>, i: int) -> bool {
    node_kind(nodes[i]) == Kind::PreprocDef && kind_before(nodes, i) == Some(Kind::PreprocDef)
}

/// Tells whether a node is the first of a block of definitions.
pub fn is_define_block_start(nodes: &Vec<SyntaxNode<'_>>, i: usize) -> (r: bool)
    requires
        i < nodes@.len(),
    ensures
        r == starts_block(nodes_of(nodes@), i as int),
{
    if classify(nodes[i].kind) != Kind::PreprocDef {
        return false;
    }
    match lookbehind(nodes, i) {
        Some(kind) => kind != Kind::PreprocDef,
        None => true,
    }
}

/// Tells whether a node continues a block of definitions.
pub fn is_define_block_member(nodes: &Vec<SyntaxNode<'_>>, i: usize) -> (r: bool)
    requires
        i < nodes@.len(),
    ensures
        r == continues_block(nodes_of(nodes@), i as int),
{
    if classify(nodes[i].kind) != Kind::PreprocDef {
        return false;
    }
    match lookbehind(nodes, i) {
        Some(kind) => kind == Kind::PreprocDef,
        None => false,
    }
}

/// The definitions of the block that starts at an index: those of the nodes
/// from there up to the first that is no definition.
pub open spec fn block_parts(nodes: Seq<Syntax>, i: int) -> Seq<DefineParts>
    decreases nodes.len() - i,
{
    if 0 <= i < nodes.len() && node_kind(nodes[i]) == Kind::PreprocDef {
        seq![define_parts(nodes[i])] + block_parts(nodes, i + 1)
    } else {
        seq![]
    }
}

/// The width of the widest name.
pub open spec fn name_width(lines: Seq<DefineParts>) -> nat
    decreases lines.len(),
{
    if lines.len() == 0 {
        0
    } else {
        let rest = name_width(lines.drop_last());
        let last = width(lines.last().name);
        if last > rest {
            last
        } else {
            rest
        }
    }
}

/// The width of the widest value.
pub open spec fn value_width(lines: Seq<DefineParts>) -> nat
    decreases lines.len(),
{
    if lines.len() == 0 {
        0
    } else {
        let rest = value_width(lines.drop_last());
        let last = width(lines.last().value);
        if last > rest {
            last
        } else {
            rest
        }
    }
}

/// The spaces that fill a column behind a text.
pub open spec fn filling(column: nat, text: Seq<char>) -> Seq<char> {
    spaces(
        if column > width(text) {
            (column - width(text)) as nat
        } else {
            0
        },
    )
}

/// A definition up to its value: the name, and where a value or a comment
/// follows, the spaces that bring it to its column.
pub open spec fn define_head(line: DefineParts, names: nat, indent: nat) -> Seq<char> {
    let head = spaces(2 * indent) + "#define "@ + line.name;
    if line.value.len() > 0 || line.comment is Some {
        head + filling(names, line.name) + " "@
    } else {
        head
    }
}

/// A line of an aligned block.
pub open spec fn aligned_line(
    line: DefineParts,
    names: nat,
    values: nat,
    indent: nat,
) -> Seq<char> {
    let head = define_head(line, names, indent) + line.value;
    match line.comment {
        Some(comment) => head + filling(values, line.value) + "  // "@ + comment + "\n"@,
        None => head + "\n"@,
    }
}

/// The first lines of an aligned block.
pub open spec fn aligned_lines(
    lines: Seq<DefineParts>,
    names: nat,
    values: nat,
    indent: nat,
    n: nat,
) -> Seq<char>
    decreases n,
{
    if n == 0 {
        seq![]
    } else {
        aligned_lines(lines, names, values, indent, (n - 1) as nat) + aligned_line(
            lines[n - 1],
            names,
            values,
            indent,
        )
    }
}

/// An aligned block: its values begin in one column, and so do its comments.
pub open spec fn aligned_block(lines: Seq<DefineParts>, indent: nat) -> Seq<char> {
    aligned_lines(lines, name_width(lines), value_width(lines), indent, lines.len())
}

/// A definition on its own.
pub open spec fn plain_define(node: Syntax, indent: nat) -> Seq<char> {
    let head = spaces(2 * indent) + "#define "@ + match node.name {
        Some(name) => trimmed(name),
        None => seq![],
    };
    match node.value {
        Some(raw) => if trimmed(raw).len() > 0 {
            head + " "@ + trimmed(raw) + "\n"@
        } else {
            head + "\n"@
        },
        None => head + "\n"@,
    }
}

/// The parts of a list of definitions.
pub open spec fn parts_of(lines: Seq<DefineLine>) -> Seq<DefineParts> {
    lines.map_values(|line: DefineLine| line@)
}

/// Reads the definitions of the block that starts at an index.
pub fn block_lines(nodes: &Vec<SyntaxNode<'_>>, i: usize) -> (lines: Vec<DefineLine>)
    requires
        i < nodes@.len(),
    ensures
        parts_of(lines@) == block_parts(nodes_of(nodes@), i as int),
{
    let ghost all = nodes_of(nodes@);
    let mut lines: Vec<DefineLine> = Vec::new();
    let mut k: usize = i;
    assert(parts_of(lines@) + block_parts(all, i as int) =~= block_parts(all, i as int));
    while k < nodes.len() && classify(nodes[k].kind) == Kind::PreprocDef
        invariant
            all == nodes_of(nodes@),
            i <= k <= nodes@.len(),
            parts_of(lines@) + block_parts(all, k as int) == block_parts(all, i as int),
        decreases nodes@.len() - k,
    {
        let line = parse_define_line(&nodes[k]);
        proof {
            assert(parts_of(lines@.push(line)) =~= parts_of(lines@).push(line@));
            assert(parts_of(lines@) + (seq![line@] + block_parts(all, k + 1)) =~= parts_of(
                lines@,
            ).push(line@) + block_parts(all, k + 1));
        }
        lines.push(line);
        k += 1;
    }
    assert(parts_of(lines@) + Seq::<DefineParts>::empty() =~= parts_of(lines@));
    lines
}

/// The widths of the widest name and of the widest value.
pub fn column_widths(lines: &Vec<DefineLine>) -> (r: (usize, usize))
    ensures
        r.0 == name_width(parts_of(lines@)),
        r.1 == value_width(parts_of(lines@)),
{
    let ghost parts = parts_of(lines@);
    let mut names: usize = 0;
    let mut values: usize = 0;
    let mut i: usize = 0;
    while i < lines.len()
        invariant
            parts == parts_of(lines@),
            i <= lines@.len(),
            names == name_width(parts.take(i as int)),
            values == value_width(parts.take(i as int)),
        decreases lines@.len() - i,
    {
        proof {
            let next = parts.take(i + 1);
            assert(next.drop_last() =~= parts.take(i as int));
            assert(next.last() == lines@[i as int]@);
        }
        let name: usize = byte_width(lines[i].name.as_str());
        if name > names {
            names = name;
        }
        let value: usize = byte_width(lines[i].value.as_str());
        if value > values {
            values = value;
        }
        i += 1;
    }
    assert(parts.take(i as int) =~= parts);
    (names, values)
}

/// Prints a line of an aligned block.
pub fn print_aligned_line(
    writer: &mut Writer,
    line: &DefineLine,
    names: usize,
    values: usize,
    ctx: &Context,
)
    ensures
        final(writer)@ == old(writer)@.write(
            aligned_line(line@, names as nat, values as nat, ctx.indent as nat),
        ),
{
    let ghost start = writer@.text;
    let ghost head = define_head(line@, names as nat, ctx.indent as nat);
    writer.print_indent(ctx);
    writer.push_str("#define ");
    writer.push_str(line.name.as_str());
    if !line.value.as_str().is_empty() || line.comment.is_some() {
        let name: usize = byte_width(line.name.as_str());
        writer.push_spaces(
            if names > name {
                names - name
            } else {
                0
            },
        );
        writer.push_str(" ");
    }
    assert(writer@.text =~= start + head);
    writer.push_str(line.value.as_str());
    match &line.comment {
        Some(comment) => {
            let value: usize = byte_width(line.value.as_str());
            writer.push_spaces(
                if values > value {
                    values - value
                } else {
                    0
                },
            );
            writer.push_str("  // ");
            writer.push_str(comment.as_str());
        },
        None => {},
    }
    writer.push_str("\n");
    assert(writer@.text =~= start + aligned_line(line@, names as nat, values as nat, ctx.indent as nat));
}

/// Prints the block of definitions that starts at an index, aligned.
pub fn print_define_block(
    writer: &mut Writer,
    nodes: &Vec<SyntaxNode<'_>>,
    i: usize,
    ctx: &Context,
)
    requires
        i < nodes@.len(),
    ensures
        final(writer)@ == old(writer)@.write(
            aligned_block(block_parts(nodes_of(nodes@), i as int), ctx.indent as nat),
        ),
{
    let lines = block_lines(nodes, i);
    let ghost parts = parts_of(lines@);
    let (names, values) = column_widths(&lines);
    let ghost start = writer@;
    let mut k: usize = 0;
    assert(start.text + Seq::<char>::empty() =~= start.text);
    while k < lines.len()
        invariant
            parts == parts_of(lines@),
            k <= lines@.len(),
            writer@ == start.write(
                aligned_lines(parts, names as nat, values as nat, ctx.indent as nat, k as nat),
            ),
        decreases lines@.len() - k,
    {
        print_aligned_line(writer, &lines[k], names, values, ctx);
        proof {
            let done = aligned_lines(parts, names as nat, values as nat, ctx.indent as nat, k as nat);
            let line = aligned_line(parts[k as int], names as nat, values as nat, ctx.indent as nat);
            assert(start.text + done + line =~= start.text + (done + line));
        }
        k += 1;
    }
}

/// Prints a definition on its own.
pub fn print_plain_define(writer: &mut Writer, node: &SyntaxNode<'_>, ctx: &Context)
    ensures
        final(writer)@ == old(writer)@.write(plain_define(node@, ctx.indent as nat)),
{
    let ghost start = writer@.text;
    writer.print_indent(ctx);
    writer.push_str("#define ");
    match node.name {
        Some(name) => writer.push_str(trim(name)),
        None => {},
    }
    match node.value {
        Some(raw) => {
            let value = trim(raw);
            if !value.is_empty() {
                writer.push_str(" ");
                writer.push_str(value);
            }
        },
        None => {},
    }
    writer.push_str("\n");
    assert(writer@.text =~= start + plain_define(node@, ctx.indent as nat));
}

} // verus!
