//! What holds of byte strings.
use vstd::prelude::*;
use vstd::string::*;

use crate::context::{outdented, Context};
use crate::laws::rules::{adds, law_kind_by_name};
use crate::printer::{byte_lines, byte_string_text, BYTES_PER_LINE};
use crate::syntax::Syntax;
use crate::text::{
    is_white, joined, lemma_trimmed_start, lemma_word_len, spaces, trimmed_start, word_len, words,
};
use crate::writer::Page;

verus! {

/// Whether a text is a word: not empty and without white space.
pub open spec fn is_word(s: Seq<char>) -> bool {
    s.len() > 0 && forall|i: int| 0 <= i < s.len() ==> !is_white(#[trigger] s[i])
}

/// Each of the words of a text is a word.
pub proof fn law_words_are_words(s: Seq<char>, i: int)
    requires
        0 <= i < words(s).len(),
    ensures
        is_word(words(s)[i]),
    decreases s.len(),
{
    let t = trimmed_start(s);
    lemma_trimmed_start(s);
    lemma_word_len(t);
    let n = word_len(t) as int;
    if i == 0 {
        assert forall|j: int| 0 <= j < n implies !is_white(#[trigger] words(s)[0][j]) by {
            assert(words(s)[0] == t.take(n));
            assert(t.take(n)[j] == t[j]);
        }
    } else {
        law_words_are_words(t.skip(n), i - 1);
    }
}

/// The leading white space of a concatenation.
proof fn lemma_trimmed_start_add(a: Seq<char>, b: Seq<char>)
    ensures
        trimmed_start(a + b) == if trimmed_start(a).len() > 0 {
            trimmed_start(a) + b
        } else {
            trimmed_start(b)
        },
    decreases a.len(),
{
    if a.len() == 0 {
        assert(a + b =~= b);
    } else if is_white(a[0]) {
        lemma_trimmed_start_add(a.skip(1), b);
        assert((a + b).skip(1) =~= a.skip(1) + b);
        assert(trimmed_start(a + b) == trimmed_start((a + b).skip(1)));
    }
}

/// A word ends where white space is added behind it.
proof fn lemma_word_len_add(a: Seq<char>, c: char, b: Seq<char>)
    requires
        is_white(c),
    ensures
        word_len(a + seq![c] + b) == word_len(a),
    decreases a.len(),
{
    let s = a + seq![c] + b;
    if a.len() > 0 && !is_white(a[0]) {
        lemma_word_len_add(a.skip(1), c, b);
        assert(s.skip(1) =~= a.skip(1) + seq![c] + b);
        assert(word_len(s) == 1 + word_len(s.skip(1)));
    } else if a.len() == 0 {
        assert(s[0] == c);
    } else {
        assert(s[0] == a[0]);
    }
}

/// White space parts the words of a text.
pub proof fn law_white_space_parts_words(a: Seq<char>, c: char, b: Seq<char>)
    requires
        is_white(c),
    ensures
        words(a + seq![c] + b) == words(a) + words(b),
    decreases a.len(),
{
    let rest = seq![c] + b;
    let s = a + seq![c] + b;
    let t = trimmed_start(a);
    assert(s =~= a + rest);
    lemma_trimmed_start_add(a, rest);
    lemma_trimmed_start(a);
    if t.len() == 0 {
        assert(rest.skip(1) =~= b);
        assert(trimmed_start(rest) == trimmed_start(b));
        assert(words(a) =~= seq![]);
        assert(words(s) == words(b));
        assert(words(a) + words(b) =~= words(b));
    } else {
        let n = word_len(t) as int;
        lemma_word_len(t);
        lemma_word_len_add(t, c, b);
        assert(t + rest =~= t + seq![c] + b);
        assert((t + rest).take(n) =~= t.take(n));
        assert((t + rest).skip(n) =~= t.skip(n) + seq![c] + b);
        law_white_space_parts_words(t.skip(n), c, b);
        assert(words(s) == seq![t.take(n)] + words((t + rest).skip(n)));
        assert(words(s) =~= words(a) + words(b));
    }
}

/// A word is its only word.
pub(crate) proof fn lemma_word_of_word(s: Seq<char>)
    requires
        is_word(s),
    ensures
        words(s) == seq![s],
{
    lemma_word_len(s);
    let n = word_len(s) as int;
    assert(!is_white(s[0]));
    if n < s.len() {
        assert(!is_white(s[n]));
    }
    assert(s.take(n) =~= s);
    assert(s.skip(n) =~= seq![]);
    assert(trimmed_start(Seq::<char>::empty()) =~= seq![]);
    assert(words(Seq::<char>::empty()) =~= seq![]);
    assert(words(s) =~= seq![s]);
}

/// To join words and split them again gives the words.
pub proof fn law_joined_words_split(parts: Seq<Seq<char>>)
    requires
        forall|i: int| 0 <= i < parts.len() ==> is_word(#[trigger] parts[i]),
    ensures
        words(joined(parts)) == parts,
    decreases parts.len(),
{
    if parts.len() == 0 {
        assert(trimmed_start(Seq::<char>::empty()) =~= seq![]);
        assert(words(joined(parts)) =~= parts);
    } else if parts.len() == 1 {
        assert(is_word(parts[0]));
        lemma_word_of_word(parts[0]);
        assert(seq![parts[0]] =~= parts);
    } else {
        reveal_strlit(" ");
        let front = parts.drop_last();
        assert forall|i: int| 0 <= i < front.len() implies is_word(#[trigger] front[i]) by {
            assert(is_word(parts[i]));
        }
        law_joined_words_split(front);
        assert(is_word(parts[parts.len() - 1]));
        lemma_word_of_word(parts.last());
        assert(" "@ =~= seq![' ']);
        law_white_space_parts_words(joined(front), ' ', parts.last());
        assert(front + seq![parts.last()] =~= parts);
    }
}

/// Spaces in front of a text do not change its words.
proof fn lemma_words_behind_spaces(n: nat, s: Seq<char>)
    ensures
        words(spaces(n) + s) == words(s),
    decreases n,
{
    lemma_trimmed_start_add(spaces(n), s);
    lemma_trimmed_start(spaces(n));
    if trimmed_start(spaces(n)).len() > 0 {
        assert(is_white(trimmed_start(spaces(n))[0]));
    }
}

/// The lines of a byte string hold its bytes.
proof fn lemma_words_of_lines(bytes: Seq<Seq<char>>, k: int, indent: nat)
    requires
        0 <= k <= bytes.len(),
        forall|i: int| 0 <= i < bytes.len() ==> is_word(#[trigger] bytes[i]),
    ensures
        words(byte_lines(bytes, k, indent)) == bytes.skip(k),
    decreases bytes.len() - k,
{
    if k < bytes.len() {
        reveal_strlit("\n");
        let end = if bytes.len() - k <= BYTES_PER_LINE {
            bytes.len() as int
        } else {
            k + BYTES_PER_LINE
        };
        let chunk = bytes.subrange(k, end);
        let rest = byte_lines(bytes, end, indent);
        lemma_words_of_lines(bytes, end, indent);
        assert forall|i: int| 0 <= i < chunk.len() implies is_word(#[trigger] chunk[i]) by {
            assert(is_word(bytes[k + i]));
        }
        law_joined_words_split(chunk);
        lemma_words_behind_spaces(2 * indent, joined(chunk));
        assert("\n"@ =~= seq!['\n']);
        law_white_space_parts_words(spaces(2 * indent) + joined(chunk), '\n', rest);
        assert(chunk + bytes.skip(end) =~= bytes.skip(k));
    } else {
        assert(trimmed_start(Seq::<char>::empty()) =~= seq![]);
        assert(words(byte_lines(bytes, k, indent)) =~= bytes.skip(k));
    }
}

/// A byte string keeps its bytes, in order, between its brackets.
pub proof fn law_bytes_are_kept(text: Seq<char>, indent: nat)
    requires
        text.len() >= 2,
    ensures
        ({
            let out = byte_string_text(text, indent);
            &&& out.len() >= 2
            &&& out[0] == '['
            &&& out.last() == ']'
            &&& words(out.subrange(1, out.len() - 1)) == words(text.subrange(1, text.len() - 1))
        }),
{
    reveal_strlit("[");
    reveal_strlit("]");
    reveal_strlit("[\n");
    let bytes = words(text.subrange(1, text.len() - 1));
    let out = byte_string_text(text, indent);
    assert forall|i: int| 0 <= i < bytes.len() implies is_word(#[trigger] bytes[i]) by {
        law_words_are_words(text.subrange(1, text.len() - 1), i);
    }
    if bytes.len() <= BYTES_PER_LINE {
        assert(out.subrange(1, out.len() - 1) =~= joined(bytes));
        law_joined_words_split(bytes);
    } else {
        let lines = byte_lines(bytes, 0, indent);
        let margin = spaces(2 * outdented(indent));
        let inner = out.subrange(1, out.len() - 1);
        assert(inner =~= Seq::<char>::empty() + seq!['\n'] + (lines + margin));
        law_white_space_parts_words(Seq::<char>::empty(), '\n', lines + margin);
        assert(trimmed_start(Seq::<char>::empty()) =~= seq![]);
        assert(words(Seq::<char>::empty()) =~= seq![]);
        assert(words(inner) =~= words(lines + margin));
        lemma_words_of_lines(bytes, 0, indent);
        assert(bytes.skip(0) =~= bytes);
        lemma_words_before_spaces(lines, 2 * outdented(indent));
    }
}

/// Spaces behind a text do not change its words.
proof fn lemma_words_before_spaces(s: Seq<char>, n: nat)
    ensures
        words(s + spaces(n)) == words(s),
{
    if n == 0 {
        assert(s + spaces(n) =~= s);
    } else {
        let rest = spaces((n - 1) as nat);
        assert(s + spaces(n) =~= s + seq![' '] + rest);
        law_white_space_parts_words(s, ' ', rest);
        lemma_words_behind_spaces((n - 1) as nat, Seq::<char>::empty());
        assert(rest + Seq::<char>::empty() =~= rest);
        assert(trimmed_start(Seq::<char>::empty()) =~= seq![]);
        assert(words(Seq::<char>::empty()) =~= seq![]);
        assert(words(s) + seq![] =~= words(s));
    }
}

/// What stands before a byte: a line break and the indentation before every
/// sixteenth where there are more than sixteen, and else one space before each
/// but the first.
pub open spec fn before_byte(count: nat, i: int, indent: nat) -> Seq<char> {
    if count > 16 && i % 16 == 0 {
        seq!['\n'] + spaces(2 * indent)
    } else if i == 0 {
        Seq::empty()
    } else {
        seq![' ']
    }
}

/// The bytes between two indices, each behind what stands before it.
pub open spec fn bytes_between(bytes: Seq<Seq<char>>, from: int, to: int, indent: nat) -> Seq<char>
    decreases to - from,
{
    if from < to {
        bytes_between(bytes, from, to - 1, indent) + before_byte(bytes.len(), to - 1, indent)
            + bytes[to - 1]
    } else {
        Seq::empty()
    }
}

/// Bytes up to an index and from there are the bytes of both.
proof fn lemma_bytes_compose(bytes: Seq<Seq<char>>, from: int, middle: int, to: int, indent: nat)
    requires
        from <= middle <= to,
    ensures
        bytes_between(bytes, from, to, indent) == bytes_between(bytes, from, middle, indent)
            + bytes_between(bytes, middle, to, indent),
    decreases to - middle,
{
    if middle < to {
        lemma_bytes_compose(bytes, from, middle, to - 1, indent);
        assert(bytes_between(bytes, from, to, indent) =~= bytes_between(
            bytes,
            from,
            middle,
            indent,
        ) + bytes_between(bytes, middle, to, indent));
    } else {
        assert(bytes_between(bytes, from, middle, indent) + Seq::<char>::empty() =~= bytes_between(
            bytes,
            from,
            middle,
            indent,
        ));
    }
}

/// The bytes of one line.
proof fn lemma_bytes_of_a_line(bytes: Seq<Seq<char>>, k: int, end: int, indent: nat)
    requires
        0 <= k < end <= bytes.len(),
        end <= k + 16,
        k % 16 == 0,
        bytes.len() > 16 || k == 0,
    ensures
        bytes_between(bytes, k, end, indent) == before_byte(bytes.len(), k, indent) + joined(
            bytes.subrange(k, end),
        ),
    decreases end - k,
{
    reveal_strlit(" ");
    assert(" "@ =~= seq![' ']);
    let part = bytes.subrange(k, end);
    assert(part.drop_last() =~= bytes.subrange(k, end - 1));
    if end == k + 1 {
        assert(bytes_between(bytes, k, k, indent) =~= seq![]);
        assert(bytes_between(bytes, k, end, indent) =~= before_byte(bytes.len(), k, indent)
            + joined(part));
    } else {
        lemma_bytes_of_a_line(bytes, k, end - 1, indent);
        assert((end - 1) % 16 != 0);
        assert(bytes_between(bytes, k, end, indent) =~= before_byte(bytes.len(), k, indent)
            + joined(part));
    }
}

/// The lines of a long byte string are its bytes with what stands before each.
proof fn lemma_bytes_of_lines(bytes: Seq<Seq<char>>, k: int, indent: nat)
    requires
        bytes.len() > 16,
        0 <= k < bytes.len(),
        k % 16 == 0,
    ensures
        seq!['\n'] + byte_lines(bytes, k, indent) == bytes_between(
            bytes,
            k,
            bytes.len() as int,
            indent,
        ) + seq!['\n'],
    decreases bytes.len() - k,
{
    reveal_strlit("\n");
    assert("\n"@ =~= seq!['\n']);
    let n = bytes.len() as int;
    let end = if n - k <= 16 {
        n
    } else {
        k + 16
    };
    let rest = byte_lines(bytes, end, indent);
    let line = joined(bytes.subrange(k, end));
    lemma_bytes_of_a_line(bytes, k, end, indent);
    lemma_bytes_compose(bytes, k, end, n, indent);
    assert(byte_lines(bytes, k, indent) == spaces(2 * indent) + line + "\n"@ + rest);
    if end < n {
        lemma_bytes_of_lines(bytes, end, indent);
    } else {
        assert(rest =~= seq![]);
        assert(bytes_between(bytes, end, n, indent) =~= seq![]);
    }
    assert(seq!['\n'] + byte_lines(bytes, k, indent) =~= before_byte(bytes.len(), k, indent) + line
        + (seq!['\n'] + rest));
    if end < n {
        assert(before_byte(bytes.len(), k, indent) + line + (bytes_between(bytes, end, n, indent)
            + seq!['\n']) =~= bytes_between(bytes, k, n, indent) + seq!['\n']);
    } else {
        assert(seq!['\n'] + rest =~= seq!['\n']);
        assert(bytes_between(bytes, k, n, indent) =~= bytes_between(bytes, k, end, indent));
    }
}

/// A byte string is printed with all its bytes between its brackets: up to
/// sixteen on one line with one space between each two, more on lines of sixteen
/// at the indentation of the place, with the closing bracket one level less
/// deep.
pub proof fn law_bytes_stand_in_lines_of_sixteen(
    nodes: Seq<Syntax>,
    i: int,
    ctx: Context,
    page: Page,
)
    requires
        nodes[i].kind == "byte_string_literal"@,
        nodes[i].text.len() >= 2,
    ensures
        ({
            let text = nodes[i].text;
            let bytes = words(text.subrange(1, text.len() - 1));
            let n = bytes.len();
            let closing = if n <= 16 {
                seq![']']
            } else if ctx.indent == 0 {
                seq!['\n', ']']
            } else {
                seq!['\n'] + spaces((2 * ctx.indent - 2) as nat) + seq![']']
            };
            adds(
                nodes,
                i,
                ctx,
                page,
                seq!['['] + bytes_between(bytes, 0, n as int, ctx.indent as nat) + closing,
            )
        }),
{
    law_kind_by_name(nodes[i].kind);
    reveal_strlit("[");
    reveal_strlit("]");
    reveal_strlit("[\n");
    assert("["@ =~= seq!['[']);
    assert("]"@ =~= seq![']']);
    let text = nodes[i].text;
    let indent = ctx.indent as nat;
    let bytes = words(text.subrange(1, text.len() - 1));
    let n = bytes.len() as int;
    let inner = bytes_between(bytes, 0, n, indent);
    if n == 0 {
        assert(byte_string_text(text, indent) =~= seq!['['] + inner + seq![']']);
    } else if n <= 16 {
        lemma_bytes_of_a_line(bytes, 0, n, indent);
        assert(bytes.subrange(0, n) =~= bytes);
        assert(byte_string_text(text, indent) =~= seq!['['] + inner + seq![']']);
    } else {
        lemma_bytes_of_lines(bytes, 0, indent);
        let lines = byte_lines(bytes, 0, indent);
        assert("[\n"@ + lines =~= seq!['['] + (seq!['\n'] + lines));
        if indent == 0 {
            assert(byte_string_text(text, indent) =~= seq!['['] + inner + seq!['\n', ']']);
        } else {
            let margin = spaces((2 * indent - 2) as nat);
            assert(byte_string_text(text, indent) =~= seq!['['] + inner + (seq!['\n'] + margin
                + seq![']']));
        }
    }
}

} // verus!
