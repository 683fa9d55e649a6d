//! What holds of the operations on texts, on whatever text.
use vstd::prelude::*;
use vstd::string::*;

use crate::laws::bytes::{is_word, lemma_word_of_word};
use crate::laws::defines::{law_trimmed_ends, lemma_trimmed_around, lemma_trimming};
use crate::text::{
    begins, decimal, digit, ends, is_white, joined, lemma_trimmed_start, lemma_width_add, spaces,
    texts, trimmed, trimmed_start, width, without_slashes, words,
};
use crate::writer::padded;

verus! {

/// Whether a text is white space throughout.
pub open spec fn is_blank(s: Seq<char>) -> bool {
    forall|i: int| 0 <= i < s.len() ==> is_white(#[trigger] s[i])
}

/// Whether a text neither begins nor ends with white space.
pub open spec fn is_tight(s: Seq<char>) -> bool {
    s.len() > 0 ==> !is_white(s[0]) && !is_white(s[s.len() - 1])
}

/// White space is what Unicode gives the property `White_Space`, by code point:
/// the tabulator and the line breaks, the space, the next line, and the spaces
/// beyond ASCII.
pub proof fn law_white_space_by_code_point(c: char)
    ensures
        is_white(c) == ({
            let code = c as u32;
            ||| 9 <= code && code <= 13
            ||| code == 32
            ||| code == 133
            ||| code == 160
            ||| code == 5760
            ||| 8192 <= code && code <= 8202
            ||| code == 8232 || code == 8233 || code == 8239
            ||| code == 8287
            ||| code == 12288
        }),
{
}

/// Trimming takes away all white space at both ends and nothing else.
pub proof fn law_trimming_keeps_the_middle(s: Seq<char>) -> (around: (Seq<char>, Seq<char>))
    ensures
        s == around.0 + trimmed(s) + around.1,
        is_blank(around.0),
        is_blank(around.1),
        is_tight(trimmed(s)),
{
    law_trimmed_ends(s);
    lemma_trimming(s)
}

/// A text with nothing but white space around it is what trimming leaves.
pub proof fn law_trimming_finds_the_middle(lead: Seq<char>, s: Seq<char>, tail: Seq<char>)
    requires
        is_blank(lead),
        is_tight(s),
        is_blank(tail),
    ensures
        trimmed(lead + s + tail) == s,
{
    lemma_trimmed_around(lead, s, tail);
}

/// A text begins with each text that it continues, and with no other.
pub proof fn law_begins_with_a_prefix(s: Seq<char>, prefix: Seq<char>)
    ensures
        begins(s, prefix) == (exists|rest: Seq<char>| s == #[trigger] (prefix + rest)),
{
    if begins(s, prefix) {
        let rest = s.skip(prefix.len() as int);
        assert(s.take(prefix.len() as int) + rest =~= s);
        assert(s == prefix + rest);
    }
    if exists|rest: Seq<char>| s == #[trigger] (prefix + rest) {
        let rest = choose|rest: Seq<char>| s == #[trigger] (prefix + rest);
        assert(s.take(prefix.len() as int) =~= prefix);
    }
}

/// A text ends with each text that stands behind another, and with no other.
pub proof fn law_ends_with_a_suffix(s: Seq<char>, suffix: Seq<char>)
    ensures
        ends(s, suffix) == (exists|front: Seq<char>| s == #[trigger] (front + suffix)),
{
    let cut = s.len() - suffix.len();
    if ends(s, suffix) {
        let front = s.take(cut);
        assert(front + s.skip(cut) =~= s);
        assert(s == front + suffix);
    }
    if exists|front: Seq<char>| s == #[trigger] (front + suffix) {
        let front = choose|front: Seq<char>| s == #[trigger] (front + suffix);
        assert(s.skip(cut) =~= suffix);
    }
}

/// All pairs of slashes in front of a text are taken away, and nothing else.
pub proof fn law_slashes_are_stripped_in_pairs(s: Seq<char>) -> (pairs: nat)
    ensures
        2 * pairs <= s.len(),
        forall|i: int| 0 <= i < 2 * pairs ==> #[trigger] s[i] == '/',
        without_slashes(s) == s.skip((2 * pairs) as int),
        s.len() - 2 * pairs >= 2 ==> !(s[(2 * pairs) as int] == '/' && s[(2 * pairs + 1) as int]
            == '/'),
    decreases s.len(),
{
    if s.len() >= 2 && s[0] == '/' && s[1] == '/' {
        let rest = s.skip(2);
        let pairs = law_slashes_are_stripped_in_pairs(rest);
        assert forall|i: int| 0 <= i < 2 * (pairs + 1) implies #[trigger] s[i] == '/' by {
            if i >= 2 {
                assert(rest[i - 2] == '/');
            }
        }
        assert(rest.skip((2 * pairs) as int) =~= s.skip((2 * (pairs + 1)) as int));
        pairs + 1
    } else {
        assert(s.skip(0) =~= s);
        0
    }
}

/// A run of spaces is as long as asked for and holds spaces only.
pub proof fn law_spaces_are_spaces(n: nat)
    ensures
        spaces(n).len() == n,
        forall|i: int| 0 <= i < n ==> #[trigger] spaces(n)[i] == ' ',
{
}

/// The width of a text is the sum of the widths of its parts, and that of a
/// character is how many bytes UTF-8 takes for it.
pub proof fn law_width_counts_bytes(a: Seq<char>, b: Seq<char>, c: char)
    ensures
        width(a + b) == width(a) + width(b),
        width(Seq::<char>::empty()) == 0,
        width(seq![c]) == if c as u32 <= 127 {
            1nat
        } else if c as u32 <= 2047 {
            2nat
        } else if c as u32 <= 65535 {
            3nat
        } else {
            4nat
        },
{
    lemma_width_add(a, b);
    reveal_with_fuel(vstd::utf8::encode_utf8, 2);
    assert(seq![c].drop_first() =~= seq![]);
    assert(vstd::utf8::encode_utf8(seq![c]) =~= vstd::utf8::encode_scalar(c as u32));
}

/// A padded text is the text with spaces behind it, up to the size, and the
/// text itself where it is wider.
pub proof fn law_padding_adds_spaces_behind(text: Seq<char>, size: nat) -> (n: nat)
    ensures
        padded(text, size) == text + spaces(n),
        n == if size > width(text) {
            size - width(text)
        } else {
            0
        },
{
    if size > width(text) {
        (size - width(text)) as nat
    } else {
        assert(text + spaces(0) =~= text);
        0
    }
}

/// A text without white space is one word, and white space alone holds none.
pub proof fn law_words_of_simple_texts(word: Seq<char>, gap: Seq<char>)
    requires
        is_word(word),
        is_blank(gap),
    ensures
        words(word) == seq![word],
        words(gap) == Seq::<Seq<char>>::empty(),
    decreases gap.len(),
{
    lemma_word_of_word(word);
    lemma_trimmed_start(gap);
    let rest = trimmed_start(gap);
    if rest.len() > 0 {
        assert(is_white(gap[gap.len() - rest.len()]));
    }
    assert(words(gap) =~= seq![]);
}

/// Lists of texts are joined with one space between them, and nothing is added
/// to a single text or to none.
pub proof fn law_joining_puts_one_space_between(
    a: Seq<Seq<char>>,
    b: Seq<Seq<char>>,
    x: Seq<char>,
)
    requires
        a.len() > 0,
        b.len() > 0,
    ensures
        joined(a + b) == joined(a) + seq![' '] + joined(b),
        joined(seq![x]) == x,
        joined(Seq::<Seq<char>>::empty()) == Seq::<char>::empty(),
    decreases b.len(),
{
    reveal_strlit(" ");
    assert(" "@ =~= seq![' ']);
    let front = b.drop_last();
    assert((a + b).drop_last() =~= a + front);
    if front.len() == 0 {
        assert(a + front =~= a);
        assert(joined(b) == b[0]);
    } else {
        law_joining_puts_one_space_between(a, front, x);
        assert(joined(a + b) =~= joined(a) + seq![' '] + joined(b));
    }
}

/// The number that decimal digits stand for.
pub open spec fn value_of_digits(s: Seq<char>) -> int
    decreases s.len(),
{
    if s.len() == 0 {
        0
    } else {
        10 * value_of_digits(s.drop_last()) + (s[s.len() - 1] as u32 - 48)
    }
}

/// A digit is one character, the one that stands for it.
proof fn lemma_digit(d: nat)
    requires
        d < 10,
    ensures
        digit(d).len() == 1,
        digit(d)[0] as u32 == 48 + d,
{
    reveal_strlit("0");
    reveal_strlit("1");
    reveal_strlit("2");
    reveal_strlit("3");
    reveal_strlit("4");
    reveal_strlit("5");
    reveal_strlit("6");
    reveal_strlit("7");
    reveal_strlit("8");
    reveal_strlit("9");
}

/// Decimal notation reads back as the number, in digits only and without zeros
/// in front.
pub proof fn law_decimal_reads_back(n: nat)
    ensures
        value_of_digits(decimal(n)) == n,
        decimal(n).len() > 0,
        forall|i: int|
            0 <= i < decimal(n).len() ==> 48 <= #[trigger] decimal(n)[i] as u32 && decimal(
                n,
            )[i] as u32 <= 57,
        decimal(n)[0] as u32 == 48 ==> n == 0 && decimal(n).len() == 1,
    decreases n,
{
    if n < 10 {
        lemma_digit(n);
        assert(decimal(n).drop_last() =~= seq![]);
        assert(value_of_digits(decimal(n).drop_last()) == 0);
    } else {
        law_decimal_reads_back(n / 10);
        lemma_digit(n % 10);
        let front = decimal(n / 10);
        assert(decimal(n).drop_last() =~= front);
        assert(decimal(n)[0] == front[0]);
        assert forall|i: int| 0 <= i < decimal(n).len() implies 48 <= #[trigger] decimal(
            n,
        )[i] as u32 && decimal(n)[i] as u32 <= 57 by {
            if i < front.len() {
                assert(decimal(n)[i] == front[i]);
            }
        }
    }
}

/// The texts of strings are theirs, one by one.
pub proof fn law_texts_one_by_one(strings: Seq<String>)
    ensures
        texts(strings).len() == strings.len(),
        forall|i: int| 0 <= i < strings.len() ==> #[trigger] texts(strings)[i] == strings[i]@,
{
}

} // verus!
