//! What holds of macro definitions, by their texts.
use vstd::prelude::*;
use vstd::string::*;

use crate::context::Context;
use crate::define::{
    aligned_line, aligned_lines, block_parts, define_comment, define_parts, define_value,
    first_comment, name_width, opens_comment, plain_define, scan_of, scan_step, value_width, DefineParts,
    Scan,
};
use crate::kind::Kind;
use crate::laws::defines::{law_columns_are_tight, law_columns_are_wide_enough};
use crate::laws::printing::lemma_run;
use crate::laws::rules::{adds, gap_behind_directive, law_kind_by_name, lemma_neighbours};
use crate::laws::stability::{law_parts_are_those_of_the_texts, name_text, raw_text};
use crate::printer::{printed, printed_define};
use crate::syntax::{node_kind, Syntax};
use crate::text::{spaces, trimmed, trimmed_start, width};
use crate::writer::Page;

verus! {

/// A definition on its own is one line: the indentation, the word, the name
/// and, where there is a value, one space and the value.
pub proof fn law_definition_on_its_own(nodes: Seq<Syntax>, i: int, ctx: Context, page: Page)
    requires
        0 <= i < nodes.len(),
        nodes[i].kind == "preproc_def"@,
        !ctx.config.align_define,
    ensures
        ({
            let value = trimmed(raw_text(nodes[i]));
            adds(
                nodes,
                i,
                ctx,
                page,
                spaces(2 * ctx.indent as nat) + "#define "@ + trimmed(name_text(nodes[i])) + (
                if value.len() > 0 {
                    seq![' '] + value
                } else {
                    Seq::empty()
                }) + seq!['\n'] + gap_behind_directive(nodes, i),
            )
        }),
{
    law_kind_by_name(nodes[i].kind);
    lemma_neighbours(nodes, i);
    reveal_strlit(" ");
    reveal_strlit("\n");
    assert(" "@ =~= seq![' ']);
    assert("\n"@ =~= seq!['\n']);
    assert(trimmed_start(Seq::<char>::empty()) =~= seq![]);
    let value = trimmed(raw_text(nodes[i]));
    let head = spaces(2 * ctx.indent as nat) + "#define "@ + trimmed(name_text(nodes[i]));
    let tail = if value.len() > 0 {
        " "@ + value
    } else {
        Seq::empty()
    };
    assert(plain_define(nodes[i], ctx.indent as nat) =~= head + tail + "\n"@);
    assert(printed(nodes, i, ctx, page) == printed_define(nodes, i, ctx, page));
    assert(printed(nodes, i, ctx, page).text =~= page.text + (head + tail + "\n"@
        + gap_behind_directive(nodes, i)));
}

/// How many spaces fill a text up to a width.
pub open spec fn lack(size: nat, text: Seq<char>) -> nat {
    if size > width(text) {
        (size - width(text)) as nat
    } else {
        0
    }
}

/// A line of an aligned block is the indentation, the word and the name, and
/// nothing else before the name. Where a value or a comment follows, at least
/// one space stands directly behind the name, and the column of names is filled.
/// The value is printed whole, and at least two spaces behind it the comment is.
pub proof fn law_aligned_line_by_parts(line: DefineParts, names: nat, values: nat, indent: nat)
    ensures
        ({
            let text = aligned_line(line, names, values, indent);
            let head = spaces(2 * indent) + "#define "@ + line.name;
            let head_and_value = head + spaces(1 + lack(names, line.name)) + line.value;
            &&& line.value.len() == 0 && line.comment is None ==> text == head + seq!['\n']
            &&& line.value.len() > 0 && line.comment is None ==> text == head_and_value + seq![
                '\n',
            ]
            &&& line.comment is Some ==> text == head_and_value + spaces(
                2 + lack(values, line.value),
            ) + "// "@ + line.comment->0 + seq!['\n']
        }),
{
    reveal_strlit(" ");
    reveal_strlit("\n");
    reveal_strlit("// ");
    reveal_strlit("  // ");
    let text = aligned_line(line, names, values, indent);
    let head = spaces(2 * indent) + "#define "@ + line.name;
    let head_and_value = head + spaces(1 + lack(names, line.name)) + line.value;
    assert("\n"@ =~= seq!['\n']);
    if line.comment is Some {
        assert(text =~= head_and_value + spaces(2 + lack(values, line.value)) + "// "@
            + line.comment->0 + seq!['\n']);
    } else if line.value.len() > 0 {
        assert(text =~= head_and_value + seq!['\n']);
    } else {
        assert(line.value =~= seq![]);
        assert(text =~= head + seq!['\n']);
    }
}

/// Whether the nodes from one index to another are a run of definitions that
/// begins at the first and ends before the second.
pub open spec fn is_run(nodes: Seq<Syntax>, from: int, to: int) -> bool {
    &&& 0 <= from < to <= nodes.len()
    &&& from > 0 ==> nodes[from - 1].kind != "preproc_def"@
    &&& forall|k: int| from <= k < to ==> (#[trigger] nodes[k]).kind == "preproc_def"@
    &&& to < nodes.len() ==> nodes[to].kind != "preproc_def"@
}

/// Whether a width is that of the widest of some texts.
pub open spec fn is_widest(size: nat, texts: Seq<Seq<char>>) -> bool {
    &&& forall|k: int| 0 <= k < texts.len() ==> width(#[trigger] texts[k]) <= size
    &&& exists|k: int| 0 <= k < texts.len() && width(#[trigger] texts[k]) == size
}

/// The lines of a block, one behind the other.
proof fn lemma_lines_flat(
    parts: Seq<DefineParts>,
    names: nat,
    values: nat,
    indent: nat,
    n: nat,
)
    requires
        n <= parts.len(),
    ensures
        aligned_lines(parts, names, values, indent, n) == Seq::new(
            n,
            |k: int| aligned_line(parts[k], names, values, indent),
        ).flatten(),
    decreases n,
{
    let lines = Seq::new(n, |k: int| aligned_line(parts[k], names, values, indent));
    lines.lemma_flatten_and_flatten_alt_are_equivalent();
    if n > 0 {
        let m = (n - 1) as nat;
        let front = Seq::new(m, |k: int| aligned_line(parts[k], names, values, indent));
        lemma_lines_flat(parts, names, values, indent, m);
        front.lemma_flatten_and_flatten_alt_are_equivalent();
        assert(lines.drop_last() =~= front);
    }
}

/// The first of a run of definitions prints the aligned lines of all of them, in
/// order and with nothing between them. Each line has the name, the value and
/// the comment of its definition, the values stand one space behind the widest
/// name, and the comments two spaces behind the widest value.
pub proof fn law_run_is_aligned(
    nodes: Seq<Syntax>,
    from: int,
    to: int,
    ctx: Context,
    page: Page,
) -> (r: (nat, nat, Seq<Seq<char>>))
    requires
        ctx.config.align_define,
        is_run(nodes, from, to),
    ensures
        ({
            let (names, values, lines) = r;
            let count = (to - from) as nat;
            &&& adds(nodes, from, ctx, page, lines.flatten() + gap_behind_directive(nodes, from))
            &&& is_widest(names, Seq::new(count, |k: int| trimmed(name_text(nodes[from + k]))))
            &&& is_widest(values, Seq::new(count, |k: int| define_value(raw_text(nodes[from + k]))))
            &&& lines.len() == count
            &&& forall|k: int|
                0 <= k < count ==> #[trigger] lines[k] == aligned_line(
                    DefineParts {
                        name: trimmed(name_text(nodes[from + k])),
                        value: define_value(raw_text(nodes[from + k])),
                        comment: define_comment(raw_text(nodes[from + k])),
                    },
                    names,
                    values,
                    ctx.indent as nat,
                )
        }),
{
    let count = (to - from) as nat;
    let indent = ctx.indent as nat;
    assert forall|k: int| from <= k < to implies node_kind(#[trigger] nodes[k])
        == Kind::PreprocDef by {
        law_kind_by_name(nodes[k].kind);
    }
    if to < nodes.len() {
        law_kind_by_name(nodes[to].kind);
    }
    if from > 0 {
        law_kind_by_name(nodes[from - 1].kind);
    }
    law_kind_by_name(nodes[from].kind);
    lemma_neighbours(nodes, from);
    lemma_run(nodes, from, to);
    let parts = block_parts(nodes, from);
    let names = name_width(parts);
    let values = value_width(parts);
    let lines = Seq::new(count, |k: int| aligned_line(parts[k], names, values, indent));
    lemma_lines_flat(parts, names, values, indent, count);
    let name_texts = Seq::new(count, |k: int| trimmed(name_text(nodes[from + k])));
    let value_texts = Seq::new(count, |k: int| define_value(raw_text(nodes[from + k])));
    assert forall|k: int| 0 <= k < count implies {
        &&& (#[trigger] parts[k]).name == name_texts[k]
        &&& parts[k].value == value_texts[k]
        &&& parts[k].comment == define_comment(raw_text(nodes[from + k]))
        &&& width(name_texts[k]) <= names
        &&& width(value_texts[k]) <= values
    } by {
        law_parts_are_those_of_the_texts(nodes[from + k]);
        law_columns_are_wide_enough(parts, k);
    }
    law_columns_are_tight(parts);
    let a = choose|a: int| 0 <= a < parts.len() && width(#[trigger] parts[a].name) == names;
    let b = choose|b: int| 0 <= b < parts.len() && width(#[trigger] parts[b].value) == values;
    assert(parts[a].name == name_texts[a]);
    assert(parts[b].value == value_texts[b]);
    assert(width(name_texts[a]) == names);
    assert(width(value_texts[b]) == values);
    assert forall|k: int| 0 <= k < name_texts.len() implies width(#[trigger] name_texts[k])
        <= names by {
        assert(parts[k].name == name_texts[k]);
    }
    assert forall|k: int| 0 <= k < value_texts.len() implies width(#[trigger] value_texts[k])
        <= values by {
        assert(parts[k].value == value_texts[k]);
    }
    assert(printed(nodes, from, ctx, page) == printed_define(nodes, from, ctx, page));
    assert(printed(nodes, from, ctx, page).text =~= page.text + (lines.flatten()
        + gap_behind_directive(nodes, from)));
    assert forall|k: int| 0 <= k < count implies #[trigger] lines[k] == aligned_line(
        DefineParts {
            name: trimmed(name_text(nodes[from + k])),
            value: define_value(raw_text(nodes[from + k])),
            comment: define_comment(raw_text(nodes[from + k])),
        },
        names,
        values,
        indent,
    ) by {
        assert(parts[k].name == name_texts[k]);
    }
    (names, values, lines)
}

/// The other definitions of a run are not printed a second time.
pub proof fn law_run_is_not_repeated(nodes: Seq<Syntax>, i: int, ctx: Context, page: Page)
    requires
        ctx.config.align_define,
        0 < i < nodes.len(),
        nodes[i].kind == "preproc_def"@,
        nodes[i - 1].kind == "preproc_def"@,
    ensures
        adds(nodes, i, ctx, page, gap_behind_directive(nodes, i)),
{
    law_kind_by_name(nodes[i].kind);
    law_kind_by_name(nodes[i - 1].kind);
    lemma_neighbours(nodes, i);
    assert(printed(nodes, i, ctx, page) == printed_define(nodes, i, ctx, page));
    assert(page.text + Seq::<char>::empty() =~= page.text);
}

/// The definitions from an index on are those of the nodes up to the first that
/// is no definition, in order and without a gap.
pub proof fn law_runs_hold_their_definitions(nodes: Seq<Syntax>, from: int, to: int)
    requires
        0 <= from <= to <= nodes.len(),
        forall|k: int| from <= k < to ==> (#[trigger] nodes[k]).kind == "preproc_def"@,
        to < nodes.len() ==> nodes[to].kind != "preproc_def"@,
    ensures
        block_parts(nodes, from) == Seq::new(
            (to - from) as nat,
            |k: int| define_parts(nodes[from + k]),
        ),
{
    assert forall|k: int| from <= k < to implies node_kind(#[trigger] nodes[k])
        == Kind::PreprocDef by {
        law_kind_by_name(nodes[k].kind);
    }
    if to < nodes.len() {
        law_kind_by_name(nodes[to].kind);
    }
    lemma_run(nodes, from, to);
    assert(block_parts(nodes, from) =~= Seq::new(
        (to - from) as nat,
        |k: int| define_parts(nodes[from + k]),
    ));
}

/// A macro without a comment is its value, and has no comment.
pub proof fn law_macro_without_comment(raw: Seq<char>)
    requires
        forall|k: int| !first_comment(raw, k),
    ensures
        define_value(raw) == trimmed(raw),
        define_comment(raw) is None,
{
}

/// A scan that has come back to its start goes on as from the start.
proof fn lemma_scan_goes_on(a: Seq<char>, b: Seq<char>)
    requires
        scan_of(a) == scan_of(Seq::empty()),
    ensures
        scan_of(a + b) == scan_of(b),
    decreases b.len(),
{
    if b.len() == 0 {
        assert(a + b =~= a);
        assert(b =~= seq![]);
    } else {
        lemma_scan_goes_on(a, b.drop_last());
        assert((a + b).drop_last() =~= a + b.drop_last());
    }
}

/// Whether a text can stand between two quotes of a kind: the quote is in it
/// only behind a backslash, and every backslash has a character behind it.
pub open spec fn is_quotable(s: Seq<char>, quote: char) -> bool
    decreases s.len(),
{
    if s.len() == 0 {
        true
    } else if s[0] == '\\' {
        s.len() >= 2 && is_quotable(s.skip(2), quote)
    } else {
        s[0] != quote && is_quotable(s.skip(1), quote)
    }
}

/// Whether a text is one piece of a macro in which no comment opens: a
/// character that is no quote, backslash or slash, or a backslash and the
/// character that it hides, or a text between two quotes of a kind.
pub open spec fn is_piece(s: Seq<char>) -> bool {
    ||| s.len() == 1 && s[0] != '\\' && s[0] != '\'' && s[0] != '"' && s[0] != '/'
    ||| s.len() == 2 && s[0] == '\\'
    ||| s.len() >= 2 && (s[0] == '\'' || s[0] == '"') && s[s.len() - 1] == s[0] && is_quotable(
        s.subrange(1, s.len() - 1),
        s[0],
    )
}

/// The scan inside quotes.
spec fn inside_quotes(quote: char) -> Scan {
    Scan { single: quote == '\'', double: quote == '"', escaped: false }
}

/// A scan stays inside quotes over what can stand between them, and opens no
/// comment there.
proof fn lemma_scan_in_quotes(front: Seq<char>, s: Seq<char>, quote: char)
    requires
        quote == '\'' || quote == '"',
        scan_of(front) == inside_quotes(quote),
        is_quotable(s, quote),
    ensures
        scan_of(front + s) == inside_quotes(quote),
        forall|j: int|
            front.len() <= j <= front.len() + s.len() ==> scan_of(
                #[trigger] (front + s).take(j),
            ).single || scan_of((front + s).take(j)).double,
    decreases s.len(),
{
    let whole = front + s;
    if s.len() == 0 {
        assert(whole =~= front);
        assert(whole.take(whole.len() as int) =~= whole);
    } else {
        let one = front.push(s[0]);
        assert(one.drop_last() =~= front);
        assert(whole.take(front.len() as int) =~= front);
        if s[0] == '\\' {
            let two = one.push(s[1]);
            assert(two.drop_last() =~= one);
            assert(scan_of(one).escaped);
            assert(scan_of(two) == scan_step(scan_of(one), s[1]));
            assert(two + s.skip(2) =~= whole);
            lemma_scan_in_quotes(two, s.skip(2), quote);
            assert(whole.take((front.len() + 1) as int) =~= one);
        } else {
            assert(one + s.skip(1) =~= whole);
            lemma_scan_in_quotes(one, s.skip(1), quote);
        }
    }
}

/// The scan over a quote.
proof fn lemma_scan_of_quote(quote: char)
    requires
        quote == '\'' || quote == '"',
    ensures
        scan_of(seq![quote]) == inside_quotes(quote),
{
    assert(seq![quote].drop_last() =~= seq![]);
    reveal_with_fuel(scan_of, 2);
}

/// A piece leaves a scan where it was, and no comment opens in it, whatever
/// stands behind it.
proof fn lemma_scan_of_piece(p: Seq<char>, y: Seq<char>)
    requires
        is_piece(p) || (p == seq!['/'] && (y.len() == 0 || y[0] != '/')),
    ensures
        scan_of(p) == scan_of(Seq::empty()),
        forall|j: int| 0 <= j < p.len() ==> !opens_comment(p + y, j),
{
    reveal_with_fuel(scan_of, 3);
    let whole = p + y;
    if p.len() == 1 {
        assert(p.drop_last() =~= seq![]);
    } else if p[0] == '\\' && p.len() == 2 {
        assert(p.drop_last().drop_last() =~= seq![]);
        assert(whole.take(1) =~= seq![p[0]]);
        assert(seq![p[0]].drop_last() =~= seq![]);
    } else {
        let quote = p[0];
        let inner = p.subrange(1, p.len() - 1);
        lemma_scan_of_quote(quote);
        lemma_scan_in_quotes(seq![quote], inner, quote);
        assert(seq![quote] + inner =~= p.drop_last());
        assert forall|j: int| 0 <= j < p.len() implies !opens_comment(whole, j) by {
            if j > 0 {
                assert(whole.take(j) =~= (seq![quote] + inner).take(j));
            }
        }
    }
}

/// A comment opens behind a piece of a macro where it opens in what stands
/// behind the piece, and none opens in the piece: slashes between quotes, hidden
/// by a backslash or alone are part of the value.
pub proof fn law_pieces_open_no_comment(p: Seq<char>, y: Seq<char>, k: int)
    requires
        is_piece(p) || (p == seq!['/'] && (y.len() == 0 || y[0] != '/')),
    ensures
        first_comment(p + y, k) == (k >= p.len() && first_comment(y, k - p.len())),
{
    let whole = p + y;
    let n = p.len() as int;
    lemma_scan_of_piece(p, y);
    assert forall|j: int| n <= j implies opens_comment(whole, j) == #[trigger] opens_comment(
        y,
        j - n,
    ) by {
        if j < whole.len() {
            assert(whole.take(j) =~= p + y.take(j - n));
            lemma_scan_goes_on(p, y.take(j - n));
        }
    }
    if k >= n {
        if first_comment(y, k - n) {
            assert forall|j: int| 0 <= j < k implies !opens_comment(whole, j) by {
                if j >= n {
                    assert(!opens_comment(y, j - n));
                }
            }
            assert(opens_comment(y, k - n));
        }
        if first_comment(whole, k) {
            assert(opens_comment(y, k - n));
            assert forall|j: int| 0 <= j < k - n implies !opens_comment(y, j) by {
                assert(!opens_comment(whole, j + n));
                assert(opens_comment(whole, j + n) == opens_comment(y, j + n - n));
            }
        }
    }
}

/// Two slashes that no piece holds open a comment.
pub proof fn law_two_slashes_open_a_comment(y: Seq<char>, k: int)
    ensures
        first_comment(seq!['/', '/'] + y, k) == (k == 0),
{
    let whole = seq!['/', '/'] + y;
    assert(whole.take(0) =~= seq![]);
    assert(opens_comment(whole, 0));
}

/// No comment opens in an empty text, in a backslash alone, nor behind a quote
/// that nothing closes.
pub proof fn law_unfinished_pieces_open_no_comment(quote: char, s: Seq<char>, k: int)
    requires
        quote == '\'' || quote == '"',
        is_quotable(s, quote),
    ensures
        !first_comment(Seq::empty(), k),
        !first_comment(seq!['\\'], k),
        !first_comment(seq![quote] + s, k),
        !first_comment(seq![quote] + s + seq!['\\'], k),
{
    let front = seq![quote];
    let whole = front + s;
    let longer = whole + seq!['\\'];
    lemma_scan_of_quote(quote);
    lemma_scan_in_quotes(front, s, quote);
    if 1 <= k < whole.len() {
        assert(longer.take(k) =~= whole.take(k));
    }
    if k == whole.len() {
        assert(longer.take(k) =~= whole.take(k));
    }
}

} // verus!
