//! What holds of keymap bindings in their grid.
use vstd::prelude::*;
use vstd::string::*;

use crate::bindings::{
    arranged, binding_items, bindings_from, column_width, grid_cells, keys_before,
    lemma_column_width,
};
use crate::kind::Kind;
use crate::syntax::{node_kind, Syntax};
use crate::text::{
    begins, joined, lemma_spaces_width, lemma_width_add, spaces, trimmed, width,
};
use crate::writer::padded;

verus! {

/// The width of a column is that of one of its cells, or zero where all are
/// empty.
pub proof fn law_column_is_tight(cells: Seq<Seq<char>>, columns: nat, column: nat, n: nat)
    requires
        n <= cells.len(),
    ensures
        column_width(cells, columns, column, n) == 0 || exists|i: int|
            0 <= i < n && i % (columns as int) == column && width(#[trigger] cells[i])
                == column_width(cells, columns, column, n),
    decreases n,
{
    if n > 0 {
        let m = (n - 1) as nat;
        law_column_is_tight(cells, columns, column, m);
        let rest = column_width(cells, columns, column, m);
        if column_width(cells, columns, column, n) != rest {
            assert(width(cells[m as int]) == column_width(cells, columns, column, n));
        } else if rest != 0 {
            let i = choose|i: int|
                0 <= i < m && i % (columns as int) == column && width(#[trigger] cells[i]) == rest;
            assert(width(cells[i]) == column_width(cells, columns, column, n));
        }
    }
}

/// How far a column stands from the start of its row: the columns before it
/// and three spaces behind each.
pub open spec fn column_offset(cells: Seq<Seq<char>>, columns: nat, column: nat) -> nat
    decreases column,
{
    if column == 0 {
        0
    } else {
        let before = (column - 1) as nat;
        column_offset(cells, columns, before) + column_width(cells, columns, before, cells.len())
            + 3
    }
}

/// A cell that fits its column is padded to the column and three spaces.
proof fn lemma_padded_width(text: Seq<char>, size: nat)
    requires
        width(text) <= size,
    ensures
        width(padded(text, size)) == size,
{
    lemma_spaces_width((size - width(text)) as nat);
    lemma_width_add(text, spaces((size - width(text)) as nat));
}

/// The cells of a column begin at one offset: before a cell that is not the
/// first of its row stands a line that is as wide as the indentation and the
/// columns before.
pub proof fn law_cells_share_columns(
    cells: Seq<Seq<char>>,
    columns: nat,
    indent: nat,
    row: nat,
    column: nat,
) -> (line: Seq<char>)
    requires
        0 < column < columns,
        row * columns + column <= cells.len(),
    ensures
        grid_cells(cells, columns, indent, row * columns + column) == grid_cells(
            cells,
            columns,
            indent,
            row * columns,
        ) + "\n"@ + line,
        width(line) == 2 * indent + column_offset(cells, columns, column),
    decreases column,
{
    let i = row * columns + column - 1;
    let before = (column - 1) as nat;
    let start = grid_cells(cells, columns, indent, row * columns);
    let cell = padded(cells[i], column_width(cells, columns, before, cells.len()) + 3);
    assert(i % (columns as int) == before && (i + 1) % (columns as int) == column) by {
        vstd::arithmetic::div_mod::lemma_mod_multiples_vanish(
            row as int,
            before as int,
            columns as int,
        );
        vstd::arithmetic::div_mod::lemma_mod_multiples_vanish(
            row as int,
            column as int,
            columns as int,
        );
        vstd::arithmetic::div_mod::lemma_small_mod(before, columns);
        vstd::arithmetic::div_mod::lemma_small_mod(column, columns);
        assert(columns * row == row * columns) by (nonlinear_arith);
    }
    lemma_column_width(cells, columns, before, cells.len(), i);
    lemma_padded_width(cells[i], column_width(cells, columns, before, cells.len()) + 3);
    let line = if column == 1 {
        lemma_spaces_width(2 * indent);
        lemma_width_add(spaces(2 * indent), cell);
        assert(column_offset(cells, columns, 0) == 0);
        spaces(2 * indent) + cell
    } else {
        let prior = law_cells_share_columns(cells, columns, indent, row, before);
        lemma_width_add(prior, cell);
        prior + cell
    };
    assert(grid_cells(cells, columns, indent, row * columns + column) =~= start + "\n"@ + line);
    line
}

/// No binding is lost where the layout has a key for it: each stands at the
/// key with its number.
pub proof fn law_bindings_find_their_keys(
    items: Seq<Seq<char>>,
    positions: Seq<u8>,
    item: int,
    n: int,
) -> (j: int)
    requires
        0 <= item < items.len(),
        0 <= n <= positions.len(),
        item < keys_before(positions, n),
    ensures
        0 <= j < n,
        positions[j] == 1,
        keys_before(positions, j) == item,
        arranged(items, positions)[j] == items[item],
    decreases n,
{
    if item < keys_before(positions, n - 1) {
        law_bindings_find_their_keys(items, positions, item, n - 1)
    } else {
        n - 1
    }
}

/// The keys are numbered in the order of the grid, so bindings stand in their
/// order.
pub proof fn law_keys_are_in_order(positions: Seq<u8>, j: int, k: int)
    requires
        0 <= j < k <= positions.len(),
        positions[j] == 1,
    ensures
        keys_before(positions, j) < keys_before(positions, k),
    decreases k,
{
    if j < k - 1 {
        law_keys_are_in_order(positions, j, k - 1);
    }
}

/// A gap of the layout stays empty.
pub proof fn law_gaps_stay_empty(items: Seq<Seq<char>>, positions: Seq<u8>, j: int)
    requires
        0 <= j < positions.len(),
        positions[j] != 1,
    ensures
        arranged(items, positions)[j].len() == 0,
{
}

/// The texts of the cells from an index up to the closing bracket.
pub open spec fn cell_texts(nodes: Seq<Syntax>, k: int) -> Seq<Seq<char>>
    decreases nodes.len() - k,
{
    if 0 <= k < nodes.len() && node_kind(nodes[k]) != Kind::AngleClose {
        seq![trimmed(nodes[k].text)] + cell_texts(nodes, k + 1)
    } else {
        seq![]
    }
}

/// Lists that join to the same text do so with more behind them.
proof fn lemma_joined_add(a: Seq<Seq<char>>, b: Seq<Seq<char>>, tail: Seq<Seq<char>>)
    requires
        a.len() > 0,
        b.len() > 0,
        joined(a) == joined(b),
    ensures
        joined(a + tail) == joined(b + tail),
    decreases tail.len(),
{
    if tail.len() == 0 {
        assert(a + tail =~= a);
        assert(b + tail =~= b);
    } else {
        lemma_joined_add(a, b, tail.drop_last());
        assert((a + tail).drop_last() =~= a + tail.drop_last());
        assert((b + tail).drop_last() =~= b + tail.drop_last());
    }
}

/// Two parts join like the one that they make with a space between them.
proof fn lemma_joined_merge(a: Seq<Seq<char>>, x: Seq<char>, y: Seq<char>)
    ensures
        joined(a.push(x + " "@ + y)) == joined(a.push(x).push(y)),
{
    let merged = a.push(x + " "@ + y);
    let parted = a.push(x).push(y);
    assert(merged.drop_last() =~= a);
    assert(parted.drop_last() =~= a.push(x));
    assert(a.push(x).drop_last() =~= a);
    assert(joined(parted) == joined(a.push(x)) + " "@ + y);
    if a.len() > 0 {
        assert(joined(a.push(x)) == joined(a) + " "@ + x);
        assert(joined(merged) == joined(a) + " "@ + (x + " "@ + y));
        assert(joined(merged) =~= joined(parted));
    }
}

/// The bindings from an index hold the texts from there.
proof fn lemma_bindings_hold_texts(
    nodes: Seq<Syntax>,
    k: int,
    complete: Seq<Seq<char>>,
    item: Seq<char>,
)
    requires
        k >= 0,
        item.len() > 0,
    ensures
        joined(bindings_from(nodes, k, complete, item)) == joined(
            complete.push(item) + cell_texts(nodes, k),
        ),
    decreases nodes.len() - k,
{
    let whole = complete.push(item) + cell_texts(nodes, k);
    if k < nodes.len() && node_kind(nodes[k]) != Kind::AngleClose {
        let text = trimmed(nodes[k].text);
        let tail = cell_texts(nodes, k + 1);
        assert(whole =~= complete.push(item).push(text) + tail);
        if begins(text, "&"@) {
            reveal_strlit("&");
            lemma_bindings_hold_texts(nodes, k + 1, complete.push(item), text);
        } else {
            let longer = item + " "@ + text;
            lemma_bindings_hold_texts(nodes, k + 1, complete, longer);
            lemma_joined_merge(complete, item, text);
            lemma_joined_add(complete.push(longer), complete.push(item).push(text), tail);
        }
    } else {
        assert(whole =~= complete.push(item));
    }
}

/// The bindings of a cell list hold its texts, in order: joined by spaces both
/// are the same, where the first text is not empty.
pub proof fn law_bindings_hold_the_cells(nodes: Seq<Syntax>)
    requires
        cell_texts(nodes, 1).len() > 0 ==> cell_texts(nodes, 1)[0].len() > 0,
    ensures
        joined(binding_items(nodes)) == joined(cell_texts(nodes, 1)),
{
    let none = Seq::<Seq<char>>::empty();
    if 1 < nodes.len() && node_kind(nodes[1]) != Kind::AngleClose {
        let text = trimmed(nodes[1].text);
        assert(cell_texts(nodes, 1)[0] == text);
        lemma_bindings_hold_texts(nodes, 2, none, text);
        assert(none.push(text) + cell_texts(nodes, 2) =~= cell_texts(nodes, 1));
    } else {
        assert(binding_items(nodes) =~= seq![Seq::<char>::empty()]);
        assert(joined(binding_items(nodes)) =~= seq![]);
    }
}

/// The bindings from an index begin with `&`, but possibly for the first.
proof fn lemma_bindings_begin(
    nodes: Seq<Syntax>,
    k: int,
    complete: Seq<Seq<char>>,
    item: Seq<char>,
    m: int,
)
    requires
        k >= 0,
        0 < m < bindings_from(nodes, k, complete, item).len(),
        forall|i: int| 0 < i < complete.len() ==> begins(#[trigger] complete[i], "&"@),
        complete.len() > 0 ==> begins(item, "&"@),
    ensures
        begins(bindings_from(nodes, k, complete, item)[m], "&"@),
    decreases nodes.len() - k,
{
    reveal_strlit("&");
    if k < nodes.len() && node_kind(nodes[k]) != Kind::AngleClose {
        let text = trimmed(nodes[k].text);
        if item.len() == 0 {
            lemma_bindings_begin(nodes, k + 1, complete, text, m);
        } else if begins(text, "&"@) {
            let more = complete.push(item);
            assert forall|i: int| 0 < i < more.len() implies begins(#[trigger] more[i], "&"@) by {
                if i < complete.len() {
                    assert(begins(complete[i], "&"@));
                }
            }
            lemma_bindings_begin(nodes, k + 1, more, text, m);
        } else {
            let longer = item + " "@ + text;
            if complete.len() > 0 {
                assert(longer.take(1) =~= item.take(1));
            }
            lemma_bindings_begin(nodes, k + 1, complete, longer, m);
        }
    } else {
        let all = complete.push(item);
        if m < complete.len() {
            assert(all[m] == complete[m]);
        }
    }
}

/// Every binding but the first begins with `&`.
pub proof fn law_bindings_begin_with_ampersand(nodes: Seq<Syntax>, m: int)
    requires
        0 < m < binding_items(nodes).len(),
    ensures
        begins(binding_items(nodes)[m], "&"@),
{
    lemma_bindings_begin(nodes, 1, seq![], seq![], m);
}

} // verus!
