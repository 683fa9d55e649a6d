//! What holds of keymap bindings, from the cells of a list to the grid.
use vstd::prelude::*;
use vstd::string::*;

use crate::bindings::{
    arranged, binding_items, bindings_from, column_width, grid_cell, grid_cells, keys_before,
    lemma_column_width,
};
use crate::context::Context;
use crate::laws::grids::law_column_is_tight;
use crate::laws::macros::lack;
use crate::laws::rules::{adds, law_kind_by_name};
use crate::layouts::{layout_cells, layout_columns, KeyboardLayoutType};
use crate::syntax::Syntax;
use crate::text::{begins, joined, spaces, trimmed, width};
use crate::writer::{padded, Page};

verus! {

/// Whether an index is that of the first closing bracket behind the first node
/// of a list, or the end of the list where there is none.
pub open spec fn is_end_of_cells(nodes: Seq<Syntax>, end: int) -> bool {
    &&& 1 <= end <= nodes.len()
    &&& forall|k: int| 1 <= k < end ==> (#[trigger] nodes[k]).kind != ">"@
    &&& end < nodes.len() ==> nodes[end].kind == ">"@
}

/// The texts of the nodes between the first and an index, without the white
/// space around each.
pub open spec fn texts_up_to(nodes: Seq<Syntax>, end: int) -> Seq<Seq<char>> {
    Seq::new((end - 1) as nat, |k: int| trimmed(nodes[k + 1].text))
}

/// Whether some indices are, in order, the first and all behind it whose texts
/// begin with an ampersand.
pub open spec fn are_starts(starts: Seq<int>, texts: Seq<Seq<char>>, first: int) -> bool {
    &&& starts.len() > 0
    &&& starts[0] == first
    &&& forall|a: int, b: int| 0 <= a < b < starts.len() ==> starts[a] < starts[b]
    &&& forall|a: int| 0 <= a < starts.len() ==> first <= #[trigger] starts[a] < texts.len()
    &&& forall|j: int|
        first < j < texts.len() ==> (starts.contains(j) <==> #[trigger] texts[j].len() > 0
            && texts[j][0] == '&')
}

/// The index behind a binding: where the next begins, or the end.
pub open spec fn binding_end(starts: Seq<int>, b: int, count: int) -> int {
    if b + 1 < starts.len() {
        starts[b + 1]
    } else {
        count
    }
}

/// The bindings behind those that are complete, from their starts so far.
proof fn lemma_starts(
    nodes: Seq<Syntax>,
    end: int,
    first: int,
    t: int,
    so_far: Seq<int>,
    complete: Seq<Seq<char>>,
    item: Seq<char>,
) -> (starts: Seq<int>)
    requires
        is_end_of_cells(nodes, end),
        0 <= first < t < end,
        are_starts(so_far, texts_up_to(nodes, end).take(t), first),
        complete.len() == so_far.len() - 1,
        forall|b: int|
            0 <= b < complete.len() ==> #[trigger] complete[b] == joined(
                texts_up_to(nodes, end).subrange(so_far[b], so_far[b + 1]),
            ),
        item == joined(texts_up_to(nodes, end).subrange(so_far.last(), t)),
        item.len() > 0,
    ensures
        are_starts(starts, texts_up_to(nodes, end), first),
        ({
            let texts = texts_up_to(nodes, end);
            let items = bindings_from(nodes, t + 1, complete, item);
            &&& items.len() == starts.len()
            &&& forall|b: int|
                0 <= b < starts.len() ==> #[trigger] items[b] == joined(
                    texts.subrange(starts[b], binding_end(starts, b, texts.len() as int)),
                )
        }),
    decreases end - t,
{
    reveal_strlit("&");
    let texts = texts_up_to(nodes, end);
    let seen = texts.take(t);
    if t + 1 == end {
        if end < nodes.len() {
            law_kind_by_name(nodes[end].kind);
        }
        assert(seen =~= texts);
        let items = complete.push(item);
        assert forall|b: int| 0 <= b < so_far.len() implies #[trigger] items[b] == joined(
            texts.subrange(so_far[b], binding_end(so_far, b, texts.len() as int)),
        ) by {
            if b < complete.len() {
                assert(items[b] == complete[b]);
            }
        }
        so_far
    } else {
        assert(nodes[t + 1].kind != ">"@);
        law_kind_by_name(nodes[t + 1].kind);
        let text = trimmed(nodes[t + 1].text);
        assert(texts[t] == text);
        let more = texts.take(t + 1);
        assert(more =~= seen.push(text));
        if begins(text, "&"@) {
            assert(text.take(1)[0] == '&');
            let next = so_far.push(t);
            assert forall|j: int| first < j < more.len() implies (next.contains(j)
                <==> #[trigger] more[j].len() > 0 && more[j][0] == '&') by {
                if j < t {
                    assert(more[j] == seen[j]);
                    if so_far.contains(j) {
                        let a = choose|a: int| 0 <= a < so_far.len() && so_far[a] == j;
                        assert(next[a] == j);
                    }
                    if next.contains(j) {
                        let a = choose|a: int| 0 <= a < next.len() && next[a] == j;
                        assert(so_far[a] == j);
                    }
                } else {
                    assert(next[so_far.len() as int] == j);
                }
            }
            let done = complete.push(item);
            assert forall|b: int| 0 <= b < done.len() implies #[trigger] done[b] == joined(
                texts.subrange(next[b], next[b + 1]),
            ) by {
                if b < complete.len() {
                    assert(done[b] == complete[b]);
                }
            }
            assert(texts.subrange(t, t + 1) =~= seq![text]);
            assert(joined(seq![text]) == text);
            lemma_starts(nodes, end, first, t + 1, next, done, text)
        } else {
            if text.len() > 0 && text[0] == '&' {
                assert(text.take(1) =~= "&"@);
            }
            assert forall|j: int| first < j < more.len() implies (so_far.contains(j)
                <==> #[trigger] more[j].len() > 0 && more[j][0] == '&') by {
                if j < t {
                    assert(more[j] == seen[j]);
                }
            }
            let part = texts.subrange(so_far.last(), t);
            let longer = texts.subrange(so_far.last(), t + 1);
            assert(longer.drop_last() =~= part);
            assert(longer.last() == text);
            assert(joined(longer) == joined(part) + " "@ + text);
            lemma_starts(nodes, end, first, t + 1, so_far, complete, item + " "@ + text)
        }
    }
}

/// Cells without a text in front of all others add nothing.
proof fn lemma_empty_cells(nodes: Seq<Syntax>, end: int, first: int, t: int)
    requires
        is_end_of_cells(nodes, end),
        0 <= t <= first < end,
        forall|k: int| 0 <= k < first ==> (#[trigger] texts_up_to(nodes, end)[k]).len() == 0,
    ensures
        bindings_from(nodes, t + 1, seq![], seq![]) == bindings_from(
            nodes,
            first + 1,
            seq![],
            seq![],
        ),
    decreases first - t,
{
    if t < first {
        assert(nodes[t + 1].kind != ">"@);
        law_kind_by_name(nodes[t + 1].kind);
        assert(texts_up_to(nodes, end)[t].len() == 0);
        assert(trimmed(nodes[t + 1].text) =~= seq![]);
        lemma_empty_cells(nodes, end, first, t + 1);
    }
}

/// Each cell whose text begins with an ampersand begins a binding of its own,
/// and so does the first; every other cell continues the binding before it. So a
/// binding is the texts from its first cell up to where the next one begins,
/// with one space between each two. A list without a text has one empty binding.
/// Cells without a text in front of all others do not count.
pub proof fn law_bindings_begin_at_ampersands(nodes: Seq<Syntax>, end: int, first: int) -> (starts:
    Seq<int>)
    requires
        is_end_of_cells(nodes, end),
        0 <= first < end,
        forall|k: int| 0 <= k < first ==> (#[trigger] texts_up_to(nodes, end)[k]).len() == 0,
        first < end - 1 ==> texts_up_to(nodes, end)[first].len() > 0,
    ensures
        first == end - 1 ==> binding_items(nodes) == seq![Seq::<char>::empty()],
        first < end - 1 ==> ({
            let texts = texts_up_to(nodes, end);
            let items = binding_items(nodes);
            &&& are_starts(starts, texts, first)
            &&& items.len() == starts.len()
            &&& forall|b: int|
                0 <= b < starts.len() ==> #[trigger] items[b] == joined(
                    texts.subrange(starts[b], binding_end(starts, b, texts.len() as int)),
                )
        }),
{
    let texts = texts_up_to(nodes, end);
    lemma_empty_cells(nodes, end, first, 0);
    if first == end - 1 {
        if end < nodes.len() {
            law_kind_by_name(nodes[end].kind);
        }
        assert(binding_items(nodes) =~= seq![Seq::<char>::empty()]);
        seq![]
    } else {
        assert(nodes[first + 1].kind != ">"@);
        law_kind_by_name(nodes[first + 1].kind);
        let text = texts[first];
        let so_far = seq![first];
        assert(texts.subrange(first, first + 1) =~= seq![text]);
        assert(joined(seq![text]) == text);
        assert(bindings_from(nodes, first + 1, seq![], seq![]) == bindings_from(
            nodes,
            first + 2,
            seq![],
            text,
        ));
        lemma_starts(nodes, end, first, first + 1, so_far, seq![], text)
    }
}

/// Whether some indices are, in order, all the keys of a layout.
pub open spec fn are_keys(keys: Seq<int>, positions: Seq<u8>) -> bool {
    &&& forall|a: int, b: int| 0 <= a < b < keys.len() ==> keys[a] < keys[b]
    &&& forall|a: int| 0 <= a < keys.len() ==> 0 <= #[trigger] keys[a] < positions.len()
    &&& forall|j: int|
        0 <= j < positions.len() ==> (keys.contains(j) <==> #[trigger] positions[j] == 1)
}

/// How many keys stand before an index, by the keys.
proof fn lemma_keys_before(keys: Seq<int>, positions: Seq<u8>, a: int, j: int)
    requires
        are_keys(keys, positions),
        0 <= a <= keys.len(),
        0 <= j <= positions.len(),
        a > 0 ==> keys[a - 1] < j,
        a < keys.len() ==> keys[a] >= j,
    ensures
        keys_before(positions, j) == a,
    decreases j,
{
    if j > 0 {
        if positions[j - 1] == 1 {
            assert(keys.contains(j - 1));
            let b = choose|b: int| 0 <= b < keys.len() && keys[b] == j - 1;
            if b >= a {
                assert(a == b || keys[a] < keys[b]);
            }
            if b < a - 1 {
                assert(keys[b] < keys[a - 1]);
            }
            assert(b == a - 1);
            if b > 0 {
                assert(keys[b - 1] < keys[b]);
            }
            lemma_keys_before(keys, positions, b, j - 1);
        } else {
            if a > 0 {
                assert(keys.contains(keys[a - 1]));
                assert(positions[keys[a - 1]] == 1);
            }
            lemma_keys_before(keys, positions, a, j - 1);
        }
    } else if a > 0 {
        assert(0 <= keys[a - 1]);
    }
}

/// The bindings stand at the keys of the layout in order, one at each, a key is
/// empty where there is no binding left, and a gap always is.
pub proof fn law_bindings_stand_at_the_keys(
    items: Seq<Seq<char>>,
    positions: Seq<u8>,
    keys: Seq<int>,
)
    requires
        are_keys(keys, positions),
    ensures
        arranged(items, positions).len() == positions.len(),
        forall|a: int|
            0 <= a < keys.len() ==> arranged(items, positions)[#[trigger] keys[a]] == if a
                < items.len() {
                items[a]
            } else {
                Seq::empty()
            },
        forall|j: int|
            0 <= j < positions.len() && positions[j] != 1 ==> (#[trigger] arranged(
                items,
                positions,
            )[j]).len() == 0,
{
    assert forall|a: int| 0 <= a < keys.len() implies arranged(items, positions)[#[trigger] keys[a]]
        == if a < items.len() {
        items[a]
    } else {
        Seq::empty()
    } by {
        if a > 0 {
            assert(keys[a - 1] < keys[a]);
        }
        assert(keys.contains(keys[a]));
        assert(positions[keys[a]] == 1);
        lemma_keys_before(keys, positions, a, keys[a]);
    }
}

/// The grid of a keyboard has five rows of eighteen positions. The first two
/// rows have a gap of four in the middle, the third has none, the fourth has a
/// gap of two on each side of its middle two keys, and the last a gap of one on
/// each side of its middle six.
pub proof fn law_grid_of_the_keyboard(row: int, column: int)
    requires
        0 <= row < 5,
        0 <= column < 18,
    ensures
        layout_columns(KeyboardLayoutType::Adv360) == 18,
        layout_cells(KeyboardLayoutType::Adv360).len() == 5 * 18,
        (layout_cells(KeyboardLayoutType::Adv360)[18 * row + column] == 1) == !({
            ||| row < 2 && 7 <= column <= 10
            ||| row == 3 && (column == 6 || column == 7 || column == 10 || column == 11)
            ||| row == 4 && (column == 5 || column == 12)
        }),
{
}

/// Whether a width is that of a column of cells: no cell of the column is wider,
/// and one is as wide or all are empty.
pub open spec fn is_column_width(
    size: nat,
    cells: Seq<Seq<char>>,
    columns: nat,
    column: int,
) -> bool {
    &&& forall|i: int|
        0 <= i < cells.len() && i % (columns as int) == column ==> width(#[trigger] cells[i])
            <= size
    &&& size == 0 || exists|i: int|
        0 <= i < cells.len() && i % (columns as int) == column && width(#[trigger] cells[i])
            == size
}

/// A cell list is printed as a grid: each cell of the table whole and in order,
/// the first of each row on a new line at the indentation, and behind each but
/// the last of its row the spaces that fill the column and three more.
pub proof fn law_grid_cell_by_cell(cells: Seq<Seq<char>>, columns: nat, indent: nat) -> (r: (
    Seq<nat>,
    Seq<Seq<char>>,
))
    requires
        columns > 0,
    ensures
        ({
            let (widths, pieces) = r;
            &&& widths.len() == columns
            &&& forall|c: int|
                0 <= c < columns ==> is_column_width(#[trigger] widths[c], cells, columns, c)
            &&& pieces.len() == cells.len()
            &&& forall|i: int|
                0 <= i < cells.len() ==> #[trigger] pieces[i] == (if i % (columns as int) == 0 {
                    seq!['\n'] + spaces(2 * indent)
                } else {
                    Seq::empty()
                }) + cells[i] + (if (i + 1) % (columns as int) == 0 {
                    Seq::empty()
                } else {
                    spaces(lack(widths[i % (columns as int)], cells[i]) + 3)
                })
            &&& grid_cells(cells, columns, indent, cells.len()) == pieces.flatten()
        }),
{
    reveal_strlit("\n");
    assert("\n"@ =~= seq!['\n']);
    let m = columns as int;
    let n = cells.len();
    let widths = Seq::new(columns, |c: int| column_width(cells, columns, c as nat, n));
    let pieces = Seq::new(n, |i: int| grid_cell(cells, columns, indent, i));
    assert forall|c: int| 0 <= c < columns implies is_column_width(
        #[trigger] widths[c],
        cells,
        columns,
        c,
    ) by {
        law_column_is_tight(cells, columns, c as nat, n);
        assert forall|i: int| 0 <= i < cells.len() && i % m == c implies width(#[trigger] cells[i])
            <= widths[c] by {
            lemma_column_width(cells, columns, c as nat, n, i);
        }
    }
    assert forall|i: int| 0 <= i < n implies #[trigger] pieces[i] == (if i % m == 0 {
        seq!['\n'] + spaces(2 * indent)
    } else {
        Seq::empty()
    }) + cells[i] + (if (i + 1) % m == 0 {
        Seq::empty()
    } else {
        spaces(lack(widths[i % m], cells[i]) + 3)
    }) by {
        let c = i % m;
        assert(0 <= c < m) by {
            vstd::arithmetic::div_mod::lemma_mod_bound(i, m);
        }
        assert(is_column_width(widths[c], cells, columns, c));
        assert(width(cells[i]) <= widths[c]);
        let start = if c == 0 {
            seq!['\n'] + spaces(2 * indent)
        } else {
            Seq::empty()
        };
        if (i + 1) % m == 0 {
            assert(pieces[i] =~= start + cells[i] + Seq::<char>::empty());
        } else {
            assert(padded(cells[i], widths[c] + 3) =~= cells[i] + spaces(
                lack(widths[c], cells[i]) + 3,
            ));
            assert(pieces[i] =~= start + cells[i] + spaces(lack(widths[c], cells[i]) + 3));
        }
    }
    lemma_grid_flat(cells, columns, indent, n);
    (widths, pieces)
}

/// The first cells of the grid, one behind the other.
proof fn lemma_grid_flat(cells: Seq<Seq<char>>, columns: nat, indent: nat, n: nat)
    ensures
        grid_cells(cells, columns, indent, n) == Seq::new(
            n,
            |i: int| grid_cell(cells, columns, indent, i),
        ).flatten(),
    decreases n,
{
    let pieces = Seq::new(n, |i: int| grid_cell(cells, columns, indent, i));
    pieces.lemma_flatten_and_flatten_alt_are_equivalent();
    if n > 0 {
        let front = Seq::new((n - 1) as nat, |i: int| grid_cell(cells, columns, indent, i));
        lemma_grid_flat(cells, columns, indent, (n - 1) as nat);
        front.lemma_flatten_and_flatten_alt_are_equivalent();
        assert(pieces.drop_last() =~= front);
    }
}

/// The cell list of a keymap's bindings is the grid of its bindings at the keys
/// of the layout, between brackets, with the closing one on a line of its own
/// and one level less deep.
pub proof fn law_keymap_bindings_fill_the_grid(
    nodes: Seq<Syntax>,
    i: int,
    ctx: Context,
    page: Page,
)
    requires
        nodes[i].kind == "integer_cells"@,
        ctx.keymap && ctx.bindings,
    ensures
        ({
            let layout = ctx.config.layout;
            let cells = arranged(binding_items(nodes[i].children), layout_cells(layout));
            let grid = grid_cells(cells, layout_columns(layout), ctx.indent as nat, cells.len());
            let margin = if ctx.indent == 0 {
                Seq::empty()
            } else {
                spaces((2 * ctx.indent - 2) as nat)
            };
            adds(nodes, i, ctx, page, seq!['<'] + grid + seq!['\n'] + margin + seq!['>'])
        }),
{
    law_kind_by_name(nodes[i].kind);
    reveal_strlit("<");
    reveal_strlit("\n");
    reveal_strlit(">");
    assert("<"@ =~= seq!['<']);
    assert("\n"@ =~= seq!['\n']);
    assert(">"@ =~= seq!['>']);
    if ctx.indent == 0 {
        assert(spaces(0) =~= seq![]);
    }
}

} // verus!
