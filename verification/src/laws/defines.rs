//! What holds of macro definitions and of places.
use vstd::prelude::*;
use vstd::string::*;

use crate::context::{deeper, inside, outdented, shallower, Context};
use crate::define::{
    aligned_line, define_comment, define_head, define_value, filling, first_comment, name_width,
    opens_comment, scan_of, value_width, DefineParts, Scan,
};
use crate::text::{
    is_white, lemma_ascii_width, lemma_spaces_width, lemma_trimmed_end, lemma_trimmed_start,
    lemma_width_add, spaces, trimmed, trimmed_end, trimmed_start, width,
};

verus! {

/// No name of a block is wider than its column of names, and no value wider
/// than its column of values.
pub proof fn law_columns_are_wide_enough(lines: Seq<DefineParts>, i: int)
    requires
        0 <= i < lines.len(),
    ensures
        width(lines[i].name) <= name_width(lines),
        width(lines[i].value) <= value_width(lines),
    decreases lines.len(),
{
    if i < lines.len() - 1 {
        law_columns_are_wide_enough(lines.drop_last(), i);
    }
}

/// The columns of a block are no wider than its widest name and its widest
/// value.
pub proof fn law_columns_are_tight(lines: Seq<DefineParts>)
    requires
        lines.len() > 0,
    ensures
        exists|i: int| 0 <= i < lines.len() && width(#[trigger] lines[i].name) == name_width(lines),
        exists|i: int|
            0 <= i < lines.len() && width(#[trigger] lines[i].value) == value_width(lines),
    decreases lines.len(),
{
    let rest = lines.drop_last();
    let last = lines.len() - 1;
    if rest.len() == 0 {
        assert(name_width(rest) == 0);
        assert(value_width(rest) == 0);
    } else {
        law_columns_are_tight(rest);
        let i = choose|i: int|
            0 <= i < rest.len() && width(#[trigger] rest[i].name) == name_width(rest);
        let j = choose|j: int|
            0 <= j < rest.len() && width(#[trigger] rest[j].value) == value_width(rest);
        assert(width(lines[i].name) == name_width(rest));
        assert(width(lines[j].value) == value_width(rest));
    }
    assert(width(lines[last].name) == width(lines.last().name));
    assert(width(lines[last].value) == width(lines.last().value));
}

/// The values of an aligned block begin in one column, one space behind the
/// widest name.
pub proof fn law_values_share_a_column(lines: Seq<DefineParts>, i: int, indent: nat)
    requires
        0 <= i < lines.len(),
        lines[i].value.len() > 0 || lines[i].comment is Some,
    ensures
        width(define_head(lines[i], name_width(lines), indent)) == 2 * indent + 8 + name_width(
            lines,
        ) + 1,
{
    let names = name_width(lines);
    let name = lines[i].name;
    let margin = spaces(2 * indent);
    law_columns_are_wide_enough(lines, i);
    reveal_strlit("#define ");
    reveal_strlit(" ");
    lemma_ascii_width("#define "@);
    lemma_ascii_width(" "@);
    lemma_spaces_width(2 * indent);
    lemma_spaces_width((names - width(name)) as nat);
    lemma_width_add(margin, "#define "@);
    lemma_width_add(margin + "#define "@, name);
    lemma_width_add(margin + "#define "@ + name, filling(names, name));
    lemma_width_add(margin + "#define "@ + name + filling(names, name), " "@);
}

/// The comments of an aligned block begin in one column, two spaces behind
/// the widest value.
pub proof fn law_comments_share_a_column(lines: Seq<DefineParts>, i: int, indent: nat)
    requires
        0 <= i < lines.len(),
        lines[i].comment is Some,
    ensures
        ({
            let line = lines[i];
            let names = name_width(lines);
            let values = value_width(lines);
            let before = define_head(line, names, indent) + line.value + filling(
                values,
                line.value,
            );
            &&& aligned_line(line, names, values, indent) == before + "  // "@ + line.comment->0
                + "\n"@
            &&& width(before) == 2 * indent + 8 + names + 1 + values
        }),
{
    let line = lines[i];
    let head = define_head(line, name_width(lines), indent);
    let values = value_width(lines);
    law_columns_are_wide_enough(lines, i);
    law_values_share_a_column(lines, i, indent);
    lemma_spaces_width((values - width(line.value)) as nat);
    lemma_width_add(head, line.value);
    lemma_width_add(head + line.value, filling(values, line.value));
}

/// Going deeper and back by the same number of levels leads to the same place,
/// up to the greatest indentation.
pub proof fn law_levels_cancel(ctx: Context, levels: nat)
    requires
        ctx.indent + levels <= usize::MAX,
    ensures
        shallower(deeper(ctx, levels), levels) == ctx,
{
}

/// The closing brace of an item is indented like the item, up to the greatest
/// indentation.
pub proof fn law_braces_match(ctx: Context, name: Seq<char>)
    requires
        ctx.indent < usize::MAX,
    ensures
        shallower(inside(ctx, name), 1).indent == ctx.indent,
        outdented(inside(ctx, name).indent as nat) == ctx.indent,
{
}

/// Trimmed text has no white space at its ends.
pub proof fn law_trimmed_ends(s: Seq<char>)
    ensures
        trimmed(s).len() > 0 ==> !is_white(trimmed(s)[0]) && !is_white(trimmed(s).last()),
{
    lemma_trimmed_start(s);
    lemma_trimmed_end(trimmed_start(s));
}

/// Trimming what is trimmed changes nothing.
pub proof fn law_trimming_is_stable(s: Seq<char>)
    ensures
        trimmed(trimmed(s)) == trimmed(s),
{
    law_trimmed_ends(s);
}

/// What trimming takes away at each end is white space.
pub(crate) proof fn lemma_trimming(s: Seq<char>) -> (ends: (Seq<char>, Seq<char>))
    ensures
        s == ends.0 + trimmed(s) + ends.1,
        forall|i: int| 0 <= i < ends.0.len() ==> is_white(#[trigger] ends.0[i]),
        forall|i: int| 0 <= i < ends.1.len() ==> is_white(#[trigger] ends.1[i]),
{
    let rest = trimmed_start(s);
    lemma_trimmed_start(s);
    lemma_trimmed_end(rest);
    let lead = s.take(s.len() - rest.len());
    let tail = rest.skip(trimmed(s).len() as int);
    assert(s =~= lead + trimmed(s) + tail);
    (lead, tail)
}

/// White space in front of a text does not change a scan of it.
pub(crate) proof fn lemma_scan_behind_white(lead: Seq<char>, s: Seq<char>)
    requires
        forall|i: int| 0 <= i < lead.len() ==> is_white(#[trigger] lead[i]),
    ensures
        scan_of(lead + s) == scan_of(s),
    decreases lead.len() + s.len(),
{
    if s.len() > 0 {
        assert((lead + s).drop_last() =~= lead + s.drop_last());
        lemma_scan_behind_white(lead, s.drop_last());
    } else if lead.len() > 0 {
        assert((lead + s).drop_last() =~= lead.drop_last() + s);
        assert(is_white(lead[lead.len() - 1]));
        lemma_scan_behind_white(lead.drop_last(), s);
    }
}

/// A comment opens in a trimmed text only where one opens in the text.
proof fn lemma_trimmed_opens(raw: Seq<char>, k: int)
    requires
        opens_comment(trimmed(raw), k),
    ensures
        opens_comment(raw, raw.len() - trimmed_start(raw).len() + k),
        raw.len() - trimmed_start(raw).len() >= 0,
        raw.len() - trimmed_start(raw).len() + trimmed(raw).len() <= raw.len(),
{
    let t = trimmed_start(raw);
    let shift = raw.len() - t.len();
    lemma_trimmed_start(raw);
    lemma_trimmed_end(t);
    assert(trimmed(raw)[k] == t[k] && t[k] == raw[shift + k]);
    assert(trimmed(raw)[k + 1] == t[k + 1] && t[k + 1] == raw[shift + k + 1]);
    let lead = raw.take(shift);
    assert(raw.take(shift + k) =~= lead + trimmed(raw).take(k));
    assert forall|i: int| 0 <= i < lead.len() implies is_white(#[trigger] lead[i]) by {
        assert(lead[i] == raw[i]);
    }
    lemma_scan_behind_white(lead, trimmed(raw).take(k));
}

/// The value of a macro holds no comment: to split it again changes nothing.
pub proof fn law_value_holds_no_comment(raw: Seq<char>)
    ensures
        define_value(define_value(raw)) == define_value(raw),
        define_comment(define_value(raw)) is None,
{
    let before = if exists|k: int| first_comment(raw, k) {
        raw.take(choose|k: int| first_comment(raw, k))
    } else {
        raw
    };
    assert forall|j: int| !first_comment(define_value(raw), j) by {
        lemma_no_comment_opens(raw, j);
    }
    law_trimming_is_stable(before);
}

/// Where a comment opens, there is a first one.
pub(crate) proof fn lemma_first_exists(raw: Seq<char>, k: int)
    requires
        opens_comment(raw, k),
    ensures
        exists|j: int| first_comment(raw, j),
    decreases k,
{
    if exists|j: int| 0 <= j < k && opens_comment(raw, j) {
        let j = choose|j: int| 0 <= j < k && opens_comment(raw, j);
        lemma_first_exists(raw, j);
    } else {
        assert(first_comment(raw, k));
    }
}

/// Nothing of a macro but the white space at the ends of its parts is lost:
/// the text is what the value was trimmed from, two slashes, and what the
/// comment was trimmed from.
pub proof fn law_split_covers_the_text(raw: Seq<char>, k: int)
    requires
        first_comment(raw, k),
    ensures
        raw == raw.take(k) + "//"@ + raw.skip(k + 2),
        define_value(raw) == trimmed(raw.take(k)),
        define_comment(raw) == if trimmed(raw.skip(k + 2)).len() == 0 {
            None
        } else {
            Some(trimmed(raw.skip(k + 2)))
        },
{
    let j = choose|j: int| first_comment(raw, j);
    assert(first_comment(raw, j));
    assert(j == k);
    reveal_strlit("//");
    assert(raw =~= raw.take(k) + "//"@ + raw.skip(k + 2));
}

/// A text in which no comment opens is all value.
pub proof fn law_text_without_comment_is_value(raw: Seq<char>)
    requires
        forall|k: int| !opens_comment(raw, k),
    ensures
        define_value(raw) == trimmed(raw),
        define_comment(raw) is None,
{
}

/// White space behind a text ends what a backslash hides, and changes nothing
/// else in a scan.
proof fn lemma_scan_before_white(s: Seq<char>, tail: Seq<char>)
    requires
        tail.len() > 0,
        forall|i: int| 0 <= i < tail.len() ==> is_white(#[trigger] tail[i]),
    ensures
        scan_of(s + tail) == (Scan { escaped: false, ..scan_of(s) }),
    decreases tail.len(),
{
    let front = tail.drop_last();
    assert((s + tail).drop_last() =~= s + front);
    assert(is_white(tail[tail.len() - 1]));
    if front.len() == 0 {
        assert(s + front =~= s);
    } else {
        lemma_scan_before_white(s, front);
    }
}

/// A scan of a value whose comment was split off is outside quotes at the end.
proof fn lemma_value_is_closed(raw: Seq<char>, k: int)
    requires
        first_comment(raw, k),
    ensures
        !scan_of(trimmed(raw.take(k))).single,
        !scan_of(trimmed(raw.take(k))).double,
{
    let before = raw.take(k);
    let rest = trimmed_start(before);
    let value = trimmed_end(rest);
    lemma_trimmed_start(before);
    lemma_trimmed_end(rest);
    let lead = before.take(before.len() - rest.len());
    let tail = rest.skip(value.len() as int);
    assert(before =~= lead + rest);
    assert(rest =~= value + tail);
    assert forall|i: int| 0 <= i < lead.len() implies is_white(#[trigger] lead[i]) by {
        assert(lead[i] == before[i]);
    }
    lemma_scan_behind_white(lead, rest);
    assert forall|i: int| 0 <= i < tail.len() implies is_white(#[trigger] tail[i]) by {
        assert(tail[i] == rest[value.len() + i]);
    }
    if tail.len() > 0 {
        lemma_scan_before_white(value, tail);
    } else {
        assert(value + tail =~= value);
    }
}

/// What an aligned line holds behind the name reads back as its value and its
/// comment, however many spaces stand between them.
pub proof fn law_aligned_parts_read_back(raw: Seq<char>, n: nat)
    requires
        define_comment(raw) is Some,
        n >= 1,
    ensures
        ({
            let again = define_value(raw) + spaces(n) + "// "@ + define_comment(raw)->0;
            &&& define_value(again) == define_value(raw)
            &&& define_comment(again) == define_comment(raw)
        }),
{
    reveal_strlit("// ");
    let k = choose|k: int| first_comment(raw, k);
    let value = define_value(raw);
    let comment = define_comment(raw)->0;
    let again = value + spaces(n) + "// "@ + comment;
    let gap = spaces(n);
    let at = (value.len() + n) as int;
    assert(again.take(at) =~= value + gap);
    lemma_value_is_closed(raw, k);
    lemma_scan_before_white(value, gap);
    assert(opens_comment(again, at));
    assert forall|j: int| 0 <= j < at implies !opens_comment(again, j) by {
        if opens_comment(again, j) {
            if j >= value.len() {
                assert(again[j] == gap[j - value.len()]);
            } else if j == value.len() - 1 {
                assert(again[j + 1] == gap[0]);
            } else {
                assert(again.take(j) =~= value.take(j));
                lemma_no_comment_opens(raw, j);
            }
        }
    }
    assert(first_comment(again, at));
    law_split_covers_the_text(again, at);
    law_trimmed_ends(raw.take(k));
    law_trimmed_ends(raw.skip(k + 2));
    lemma_trimmed_around(Seq::empty(), value, gap);
    assert(Seq::<char>::empty() + value + gap =~= value + gap);
    let space = spaces(1);
    lemma_trimmed_around(space, comment, Seq::empty());
    assert(again.skip(at + 2) =~= space + comment + Seq::<char>::empty());
}

/// No comment opens in the value of a macro.
proof fn lemma_no_comment_opens(raw: Seq<char>, j: int)
    ensures
        !opens_comment(define_value(raw), j),
{
    let before = if exists|k: int| first_comment(raw, k) {
        raw.take(choose|k: int| first_comment(raw, k))
    } else {
        raw
    };
    if opens_comment(define_value(raw), j) {
        lemma_trimmed_opens(before, j);
        let at = before.len() - trimmed_start(before).len() + j;
        if exists|k: int| first_comment(raw, k) {
            assert(before.take(at) =~= raw.take(at));
            assert(opens_comment(raw, at));
        } else {
            lemma_first_exists(raw, at);
        }
    }
}

/// White space around a text without any at its ends is what trimming takes
/// away.
pub(crate) proof fn lemma_trimmed_around(lead: Seq<char>, s: Seq<char>, tail: Seq<char>)
    requires
        s.len() > 0 ==> !is_white(s[0]) && !is_white(s.last()),
        forall|i: int| 0 <= i < lead.len() ==> is_white(#[trigger] lead[i]),
        forall|i: int| 0 <= i < tail.len() ==> is_white(#[trigger] tail[i]),
    ensures
        trimmed(lead + s + tail) == s,
{
    let whole = lead + s + tail;
    let rest = trimmed_start(whole);
    lemma_trimmed_start(whole);
    lemma_trimmed_end(rest);
    let cut = whole.len() - rest.len();
    let kept = trimmed_end(rest);
    if s.len() == 0 {
        if rest.len() > 0 {
            assert(rest[0] == whole[cut]);
            assert(is_white(whole[cut])) by {
                if cut < lead.len() {
                    assert(whole[cut] == lead[cut]);
                } else {
                    assert(whole[cut] == tail[cut - lead.len()]);
                }
            }
        }
        assert(kept =~= s);
    } else {
        assert(whole[lead.len() as int] == s[0]);
        if cut > lead.len() {
            assert(is_white(whole[lead.len() as int]));
        }
        if cut < lead.len() {
            assert(rest[0] == lead[cut]);
        }
        assert(rest =~= s + tail);
        if kept.len() < s.len() {
            assert(rest[s.len() - 1] == s.last());
        }
        if kept.len() > s.len() {
            assert(kept.last() == rest[kept.len() - 1]);
            assert(rest[kept.len() - 1] == tail[kept.len() - 1 - s.len()]);
        }
        assert(kept =~= s);
    }
}

} // verus!
