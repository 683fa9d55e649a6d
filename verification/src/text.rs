//! Operations on texts, stated over their characters.
use vstd::prelude::*;
use vstd::string::*;
use vstd::utf8::*;

verus! {

/// The characters with the Unicode property `White_Space`.
pub open spec fn is_white(c: char) -> bool {
    ||| '\u{9}' <= c <= '\u{d}'
    ||| c == ' '
    ||| c == '\u{85}'
    ||| c == '\u{a0}'
    ||| c == '\u{1680}'
    ||| '\u{2000}' <= c <= '\u{200a}'
    ||| c == '\u{2028}'
    ||| c == '\u{2029}'
    ||| c == '\u{202f}'
    ||| c == '\u{205f}'
    ||| c == '\u{3000}'
}

/// The text without its leading white space.
pub open spec fn trimmed_start(s: Seq<char>) -> Seq<char>
    decreases s.len(),
{
    if s.len() > 0 && is_white(s[0]) {
        trimmed_start(s.skip(1))
    } else {
        s
    }
}

/// The text without its trailing white space.
pub open spec fn trimmed_end(s: Seq<char>) -> Seq<char>
    decreases s.len(),
{
    if s.len() > 0 && is_white(s.last()) {
        trimmed_end(s.drop_last())
    } else {
        s
    }
}

/// The text without the white space around it.
pub open spec fn trimmed(s: Seq<char>) -> Seq<char> {
    trimmed_end(trimmed_start(s))
}

/// Whether the text begins with the given prefix.
pub open spec fn begins(s: Seq<char>, prefix: Seq<char>) -> bool {
    prefix.len() <= s.len() && s.take(prefix.len() as int) == prefix
}

/// Whether the text ends with the given suffix.
pub open spec fn ends(s: Seq<char>, suffix: Seq<char>) -> bool {
    suffix.len() <= s.len() && s.skip(s.len() - suffix.len()) == suffix
}

/// The text without the pairs of slashes that it begins with.
pub open spec fn without_slashes(s: Seq<char>) -> Seq<char>
    decreases s.len(),
{
    if s.len() >= 2 && s[0] == '/' && s[1] == '/' {
        without_slashes(s.skip(2))
    } else {
        s
    }
}

/// How many bytes the text takes in UTF-8.
pub open spec fn width(s: Seq<char>) -> nat {
    encode_utf8(s).len()
}

/// A run of spaces.
pub open spec fn spaces(n: nat) -> Seq<char> {
    Seq::new(n, |i: int| ' ')
}

/// How many characters before the first white space.
pub open spec fn word_len(s: Seq<char>) -> nat
    decreases s.len(),
{
    if s.len() > 0 && !is_white(s[0]) {
        1 + word_len(s.skip(1))
    } else {
        0
    }
}

/// The words of the text: its longest runs without white space.
pub open spec fn words(s: Seq<char>) -> Seq<Seq<char>>
    decreases s.len(),
{
    let t = trimmed_start(s);
    if t.len() == 0 {
        seq![]
    } else {
        proof {
            lemma_trimmed_start(s);
            lemma_word_len(t);
        }
        seq![t.take(word_len(t) as int)] + words(t.skip(word_len(t) as int))
    }
}

/// The words with one space between each two.
pub open spec fn joined(parts: Seq<Seq<char>>) -> Seq<char>
    decreases parts.len(),
{
    if parts.len() == 0 {
        seq![]
    } else if parts.len() == 1 {
        parts[0]
    } else {
        joined(parts.drop_last()) + " "@ + parts.last()
    }
}

/// A decimal digit.
pub open spec fn digit(d: nat) -> Seq<char> {
    if d == 0 {
        "0"@
    } else if d == 1 {
        "1"@
    } else if d == 2 {
        "2"@
    } else if d == 3 {
        "3"@
    } else if d == 4 {
        "4"@
    } else if d == 5 {
        "5"@
    } else if d == 6 {
        "6"@
    } else if d == 7 {
        "7"@
    } else if d == 8 {
        "8"@
    } else {
        "9"@
    }
}

/// A number in decimal notation.
pub open spec fn decimal(n: nat) -> Seq<char>
    decreases n,
{
    if n < 10 {
        digit(n)
    } else {
        decimal(n / 10) + digit(n % 10)
    }
}

/// The texts of a list of strings.
pub open spec fn texts(strings: Seq<String>) -> Seq<Seq<char>> {
    strings.map_values(|s: String| s@)
}

/// What `trimmed_start` leaves is a suffix that begins with no white space.
pub proof fn lemma_trimmed_start(s: Seq<char>)
    ensures
        trimmed_start(s).len() <= s.len(),
        trimmed_start(s) == s.skip(s.len() - trimmed_start(s).len()),
        trimmed_start(s).len() > 0 ==> !is_white(trimmed_start(s)[0]),
        forall|i: int|
            0 <= i < s.len() - trimmed_start(s).len() ==> is_white(#[trigger] s[i]),
    decreases s.len(),
{
    if s.len() > 0 && is_white(s[0]) {
        let t = s.skip(1);
        lemma_trimmed_start(t);
        assert(trimmed_start(s) =~= s.skip(s.len() - trimmed_start(s).len()));
        assert forall|i: int| 0 <= i < s.len() - trimmed_start(s).len() implies is_white(
            #[trigger] s[i],
        ) by {
            if i > 0 {
                assert(s[i] == t[i - 1]);
            }
        }
    } else {
        assert(s.skip(0) =~= s);
    }
}

/// What `trimmed_end` leaves is a prefix that ends with no white space.
pub proof fn lemma_trimmed_end(s: Seq<char>)
    ensures
        trimmed_end(s).len() <= s.len(),
        trimmed_end(s) == s.take(trimmed_end(s).len() as int),
        trimmed_end(s).len() > 0 ==> !is_white(trimmed_end(s).last()),
        forall|i: int| trimmed_end(s).len() <= i < s.len() ==> is_white(#[trigger] s[i]),
    decreases s.len(),
{
    if s.len() > 0 && is_white(s.last()) {
        let t = s.drop_last();
        lemma_trimmed_end(t);
        assert(trimmed_end(s) =~= s.take(trimmed_end(s).len() as int));
        assert forall|i: int| trimmed_end(s).len() <= i < s.len() implies is_white(
            #[trigger] s[i],
        ) by {
            if i < t.len() {
                assert(s[i] == t[i]);
            }
        }
    } else {
        assert(s.take(s.len() as int) =~= s);
    }
}

/// A word is no longer than the text, and not empty where the text begins
/// with no white space.
pub proof fn lemma_word_len(s: Seq<char>)
    ensures
        word_len(s) <= s.len(),
        s.len() > 0 && !is_white(s[0]) ==> word_len(s) > 0,
        word_len(s) < s.len() ==> is_white(s[word_len(s) as int]),
        forall|i: int| 0 <= i < word_len(s) ==> !is_white(#[trigger] s[i]),
    decreases s.len(),
{
    if s.len() > 0 && !is_white(s[0]) {
        let t = s.skip(1);
        lemma_word_len(t);
        assert forall|i: int| 0 <= i < word_len(s) implies !is_white(#[trigger] s[i]) by {
            if i > 0 {
                assert(s[i] == t[i - 1]);
            }
        }
    }
}

/// The encoding of a concatenation is the concatenation of the encodings.
pub proof fn lemma_encode_add(a: Seq<char>, b: Seq<char>)
    ensures
        encode_utf8(a + b) == encode_utf8(a) + encode_utf8(b),
    decreases a.len(),
{
    if a.len() == 0 {
        assert(a + b =~= b);
    } else {
        lemma_encode_add(a.drop_first(), b);
        assert((a + b).drop_first() =~= a.drop_first() + b);
    }
}

/// A text of ASCII characters is as wide as it is long.
pub proof fn lemma_ascii_width(s: Seq<char>)
    requires
        is_ascii_chars(s),
    ensures
        width(s) == s.len(),
{
    is_ascii_chars_encode_utf8(s);
}

/// The width of a concatenation is the sum of the widths.
pub proof fn lemma_width_add(a: Seq<char>, b: Seq<char>)
    ensures
        width(a + b) == width(a) + width(b),
{
    lemma_encode_add(a, b);
}

/// A run of spaces is as wide as it is long.
pub proof fn lemma_spaces_width(n: nat)
    ensures
        width(spaces(n)) == n,
{
    lemma_ascii_width(spaces(n));
}

/// A newline is one byte, and the only character whose encoding ends with it.
proof fn lemma_newline_byte(c: char)
    ensures
        encode_scalar(c as u32).len() > 0,
        encode_scalar(c as u32).last() == 10u8 <==> c == '\n',
        c == '\n' ==> encode_scalar(c as u32).len() == 1,
{
    let v = c as u32;
    assert(0x80u8 | ((v & 0x3F) as u8) >= 0x80u8) by (bit_vector);
    if has_width_1_encoding(v) {
        assert(v <= 0x7F ==> (v & 0x7F) as u8 == v) by (bit_vector);
    }
}

/// The last character of a text encodes to the last bytes.
proof fn lemma_encode_last(s: Seq<char>)
    requires
        s.len() > 0,
    ensures
        encode_utf8(s) == encode_utf8(s.drop_last()) + encode_scalar(s.last() as u32),
{
    let tail = seq![s.last()];
    lemma_encode_add(s.drop_last(), tail);
    assert(s.drop_last() + tail =~= s);
    reveal_with_fuel(encode_utf8, 2);
    assert(encode_utf8(tail) =~= encode_scalar(s.last() as u32));
}

/// Whether two texts have the same characters.
pub fn same(a: &str, b: &str) -> (r: bool)
    ensures
        r == (a@ == b@),
{
    let x = a.as_bytes();
    let y = b.as_bytes();
    proof {
        encode_utf8_decode_utf8(a@);
        encode_utf8_decode_utf8(b@);
    }
    if x.len() != y.len() {
        return false;
    }
    let mut i: usize = 0;
    while i < x.len()
        invariant
            x@ == encode_utf8(a@),
            y@ == encode_utf8(b@),
            x@.len() == y@.len(),
            i <= x@.len(),
            forall|j: int| 0 <= j < i ==> x@[j] == y@[j],
        decreases x@.len() - i,
    {
        if x[i] != y[i] {
            return false;
        }
        i += 1;
    }
    assert(x@ =~= y@);
    true
}

/// The width of a text in bytes.
pub fn byte_width(s: &str) -> (n: usize)
    ensures
        n == width(s@),
{
    s.as_bytes().len()
}

/// The characters of a text.
pub fn chars_vec(s: &str) -> (v: Vec<char>)
    ensures
        v@ == s@,
{
    let mut v: Vec<char> = Vec::new();
    for c in it: s.chars()
        invariant
            v@ == it.seq().take(it.index() as int),
            it.seq() == s@,
    {
        v.push(c);
    }
    v
}

/// Whether a character is white space.
pub fn is_white_space(c: char) -> (r: bool)
    ensures
        r == is_white(c),
{
    ('\u{9}' <= c && c <= '\u{d}') || c == ' ' || c == '\u{85}' || c == '\u{a0}' || c == '\u{1680}'
        || ('\u{2000}' <= c && c <= '\u{200a}') || c == '\u{2028}' || c == '\u{2029}' || c
        == '\u{202f}' || c == '\u{205f}' || c == '\u{3000}'
}

/// Takes away the white space around a text.
pub fn trim(s: &str) -> (t: &str)
    ensures
        t@ == trimmed(s@),
{
    let v = chars_vec(s);
    let mut from: usize = 0;
    assert(s@.skip(0) =~= s@);
    while from < v.len() && is_white_space(v[from])
        invariant
            v@ == s@,
            from <= v@.len(),
            trimmed_start(s@.skip(from as int)) == trimmed_start(s@),
        decreases v@.len() - from,
    {
        proof {
            assert(s@.skip(from as int).skip(1) =~= s@.skip(from + 1));
        }
        from += 1;
    }
    let ghost rest = s@.skip(from as int);
    assert(trimmed_start(s@) == rest);
    let mut to: usize = v.len();
    assert(rest.take(rest.len() as int) =~= rest);
    while to > from && is_white_space(v[to - 1])
        invariant
            v@ == s@,
            from <= to <= v@.len(),
            rest == s@.skip(from as int),
            trimmed_end(rest.take(to - from)) == trimmed_end(rest),
        decreases to,
    {
        proof {
            let part = rest.take(to - from);
            assert(part.drop_last() =~= rest.take(to - from - 1));
            assert(part.last() == v@[to - 1]);
        }
        to -= 1;
    }
    assert(rest.take(to - from) =~= s@.subrange(from as int, to as int));
    s.substring_char(from, to)
}

/// Whether a text begins with another.
pub fn begins_with(s: &str, prefix: &str) -> (r: bool)
    ensures
        r == begins(s@, prefix@),
{
    let v = chars_vec(s);
    let p = chars_vec(prefix);
    if p.len() > v.len() {
        return false;
    }
    let mut i: usize = 0;
    while i < p.len()
        invariant
            v@ == s@,
            p@ == prefix@,
            i <= p@.len() <= v@.len(),
            forall|j: int| 0 <= j < i ==> v@[j] == p@[j],
        decreases p@.len() - i,
    {
        if v[i] != p[i] {
            assert(s@.take(p@.len() as int)[i as int] != prefix@[i as int]);
            return false;
        }
        i += 1;
    }
    assert(s@.take(p@.len() as int) =~= prefix@);
    true
}

/// Whether a text ends with a blank line: with two newlines.
pub fn ends_blank(s: &str) -> (r: bool)
    ensures
        r == ends(s@, "\n\n"@),
{
    let b = s.as_bytes();
    let n: usize = b.len();
    proof {
        reveal_strlit("\n\n");
        let t = s@;
        if t.len() > 0 {
            lemma_encode_last(t);
            lemma_newline_byte(t.last());
            assert(b@.last() == encode_scalar(t.last() as u32).last());
            let u = t.drop_last();
            if t.last() == '\n' {
                assert(b@ =~= encode_utf8(u).push(10u8));
            }
            if u.len() > 0 {
                lemma_encode_last(u);
                lemma_newline_byte(u.last());
                assert(encode_utf8(u).last() == encode_scalar(u.last() as u32).last());
            }
        }
        if t.len() >= 2 && t.last() == '\n' && t[t.len() - 2] == '\n' {
            assert(t.skip(t.len() - 2) =~= "\n\n"@);
        }
        if ends(t, "\n\n"@) {
            assert(t.skip(t.len() - 2)[0] == '\n');
            assert(t.skip(t.len() - 2)[1] == '\n');
        }
    }
    n >= 2 && b[n - 1] == 10u8 && b[n - 2] == 10u8
}

/// Takes away the pairs of slashes that a text begins with.
pub fn strip_slashes(s: &str) -> (t: &str)
    ensures
        t@ == without_slashes(s@),
{
    let v = chars_vec(s);
    let mut from: usize = 0;
    assert(s@.skip(0) =~= s@);
    while v.len() - from >= 2 && v[from] == '/' && v[from + 1] == '/'
        invariant
            v@ == s@,
            from <= v@.len(),
            without_slashes(s@.skip(from as int)) == without_slashes(s@),
        decreases v@.len() - from,
    {
        proof {
            assert(s@.skip(from as int).skip(2) =~= s@.skip(from + 2));
        }
        from += 2;
    }
    assert(s@.subrange(from as int, s@.len() as int) =~= s@.skip(from as int));
    s.substring_char(from, v.len())
}

/// Splits a text into its words.
pub fn split_words(s: &str) -> (parts: Vec<String>)
    ensures
        texts(parts@) == words(s@),
{
    let v = chars_vec(s);
    let mut parts: Vec<String> = Vec::new();
    let mut i: usize = 0;
    assert(s@.skip(0) =~= s@);
    assert(texts(parts@) + words(s@) =~= words(s@));
    while i < v.len()
        invariant
            v@ == s@,
            i <= v@.len(),
            words(s@) == texts(parts@) + words(s@.skip(i as int)),
        decreases v@.len() - i,
    {
        if is_white_space(v[i]) {
            proof {
                let t = s@.skip(i as int);
                assert(t.skip(1) =~= s@.skip(i + 1));
                assert(trimmed_start(t) == trimmed_start(t.skip(1)));
                assert(words(t) == words(t.skip(1)));
            }
            i += 1;
        } else {
            let start: usize = i;
            let ghost t = s@.skip(start as int);
            while i < v.len() && !is_white_space(v[i])
                invariant
                    v@ == s@,
                    t == s@.skip(start as int),
                    start <= i <= v@.len(),
                    word_len(t) == i - start + word_len(s@.skip(i as int)),
                decreases v@.len() - i,
            {
                proof {
                    assert(s@.skip(i as int).skip(1) =~= s@.skip(i + 1));
                }
                i += 1;
            }
            let word = s.substring_char(start, i).to_owned();
            proof {
                assert(word_len(t) == i - start);
                lemma_word_len(t);
                assert(t.take(i - start) =~= s@.subrange(start as int, i as int));
                assert(t.skip(i - start) =~= s@.skip(i as int));
                assert(texts(parts@.push(word)) =~= texts(parts@).push(word@));
                assert(texts(parts@) + (seq![word@] + words(s@.skip(i as int))) =~= texts(
                    parts@,
                ).push(word@) + words(s@.skip(i as int)));
            }
            parts.push(word);
        }
    }
    assert(s@.skip(i as int) =~= Seq::<char>::empty());
    assert(texts(parts@) + Seq::<Seq<char>>::empty() =~= texts(parts@));
    parts
}

/// Joins the parts from one index to another with one space between each two.
pub fn join_words(parts: &Vec<String>, from: usize, to: usize) -> (r: String)
    requires
        from <= to <= parts@.len(),
    ensures
        r@ == joined(texts(parts@).subrange(from as int, to as int)),
{
    let mut r = String::new();
    let mut i: usize = from;
    assert(texts(parts@).subrange(from as int, from as int) =~= seq![]);
    while i < to
        invariant
            from <= i <= to <= parts@.len(),
            r@ == joined(texts(parts@).subrange(from as int, i as int)),
        decreases to - i,
    {
        let ghost next = texts(parts@).subrange(from as int, i + 1);
        proof {
            assert(next.drop_last() =~= texts(parts@).subrange(from as int, i as int));
            assert(next.last() == parts@[i as int]@);
        }
        if i > from {
            r.append(" ");
        }
        r.append(parts[i].as_str());
        proof {
            if i == from {
                assert(r@ =~= next[0]);
            }
        }
        i += 1;
    }
    r
}

/// Writes a number in decimal notation.
pub fn to_decimal(n: usize) -> (r: String)
    ensures
        r@ == decimal(n as nat),
    decreases n,
{
    let d: usize = n % 10;
    let last = if d == 0 {
        "0"
    } else if d == 1 {
        "1"
    } else if d == 2 {
        "2"
    } else if d == 3 {
        "3"
    } else if d == 4 {
        "4"
    } else if d == 5 {
        "5"
    } else if d == 6 {
        "6"
    } else if d == 7 {
        "7"
    } else if d == 8 {
        "8"
    } else {
        "9"
    };
    if n < 10 {
        last.to_owned()
    } else {
        let mut r = to_decimal(n / 10);
        r.append(last);
        r
    }
}

} // verus!
