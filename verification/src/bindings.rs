//! Keymap bindings, laid out in the grid of a keyboard.
use std::collections::VecDeque;

use vstd::prelude::*;
use vstd::string::*;

use crate::context::{outdented, Context};
use crate::kind::{classify, Kind};
use crate::layouts::{get_layout, layout_cells, layout_columns, KeyboardLayoutType};
use crate::syntax::{node_kind, nodes_of, Syntax, SyntaxNode};
use crate::text::{begins, begins_with, byte_width, spaces, texts, trim, trimmed, width};
use crate::writer::{padded, Writer};

verus! {

/// The bindings in the nodes from an index up to the closing bracket, behind
/// those that are complete and the one that is being put together. A text
/// that begins with `&` begins a new binding; any other text continues the
/// binding before it, behind a space.
pub open spec fn bindings_from(
    nodes: Seq<Syntax>,
    k: int,
    complete: Seq<Seq<char>>,
    item: Seq<char>,
) -> Seq<Seq<char>>
    decreases nodes.len() - k,
{
    if 0 <= k < nodes.len() && node_kind(nodes[k]) != Kind::AngleClose {
        let text = trimmed(nodes[k].text);
        if item.len() == 0 {
            bindings_from(nodes, k + 1, complete, text)
        } else if begins(text, "&"@) {
            bindings_from(nodes, k + 1, complete.push(item), text)
        } else {
            bindings_from(nodes, k + 1, complete, item + " "@ + text)
        }
    } else {
        complete.push(item)
    }
}

/// The bindings in a cell list, whose first node is the opening bracket.
pub open spec fn binding_items(nodes: Seq<Syntax>) -> Seq<Seq<char>> {
    bindings_from(nodes, 1, seq![], seq![])
}

/// How many keys stand before a position of a layout.
pub open spec fn keys_before(positions: Seq<u8>, j: int) -> nat
    decreases j,
{
    if j <= 0 {
        0
    } else {
        keys_before(positions, j - 1) + if positions[j - 1] == 1 {
            1nat
        } else {
            0nat
        }
    }
}

/// What stands at a position: the next binding at a key, while there are any,
/// and nothing at a gap.
pub open spec fn cell_at(items: Seq<Seq<char>>, positions: Seq<u8>, j: int) -> Seq<char> {
    let key = keys_before(positions, j);
    if positions[j] == 1 && key < items.len() {
        items[key as int]
    } else {
        seq![]
    }
}

/// The bindings at the positions of a layout.
pub open spec fn arranged(items: Seq<Seq<char>>, positions: Seq<u8>) -> Seq<Seq<char>> {
    Seq::new(positions.len(), |j: int| cell_at(items, positions, j))
}

/// The width of the widest of the first cells of a column.
pub open spec fn column_width(cells: Seq<Seq<char>>, columns: nat, column: nat, n: nat) -> nat
    decreases n,
{
    if n == 0 {
        0
    } else {
        let rest = column_width(cells, columns, column, (n - 1) as nat);
        let cell = width(cells[n - 1]);
        if (n - 1) % (columns as int) == column && cell > rest {
            cell
        } else {
            rest
        }
    }
}

/// A cell of the grid: on a new line where it is the first of its row, and
/// padded to its column and three spaces where it is not the last.
pub open spec fn grid_cell(
    cells: Seq<Seq<char>>,
    columns: nat,
    indent: nat,
    i: int,
) -> Seq<char> {
    let column = (i % (columns as int)) as nat;
    let start = if column == 0 {
        "\n"@ + spaces(2 * indent)
    } else {
        seq![]
    };
    if (i + 1) % (columns as int) == 0 {
        start + cells[i]
    } else {
        start + padded(cells[i], column_width(cells, columns, column, cells.len()) + 3)
    }
}

/// The first cells of the grid.
pub open spec fn grid_cells(
    cells: Seq<Seq<char>>,
    columns: nat,
    indent: nat,
    n: nat,
) -> Seq<char>
    decreases n,
{
    if n == 0 {
        seq![]
    } else {
        grid_cells(cells, columns, indent, (n - 1) as nat) + grid_cell(
            cells,
            columns,
            indent,
            n - 1,
        )
    }
}

/// A cell list as a grid between its brackets.
pub open spec fn bindings_grid(
    nodes: Seq<Syntax>,
    layout: KeyboardLayoutType,
    indent: nat,
) -> Seq<char> {
    let cells = arranged(binding_items(nodes), layout_cells(layout));
    "<"@ + grid_cells(cells, layout_columns(layout), indent, cells.len()) + "\n"@ + spaces(
        2 * outdented(indent),
    ) + ">"@
}

/// No cell is wider than its column.
pub proof fn lemma_column_width(cells: Seq<Seq<char>>, columns: nat, column: nat, n: nat, i: int)
    requires
        0 <= i < n,
        i % (columns as int) == column,
    ensures
        width(cells[i]) <= column_width(cells, columns, column, n),
    decreases n,
{
    if i < n - 1 {
        lemma_column_width(cells, columns, column, (n - 1) as nat, i);
    }
}

/// Between two cells of a column stand only cells of other columns.
proof fn lemma_column_skip(
    cells: Seq<Seq<char>>,
    columns: nat,
    column: nat,
    from: nat,
    to: nat,
)
    requires
        columns > 0,
        from <= to,
        forall|k: int| from <= k < to ==> #[trigger] (k % (columns as int)) != column,
    ensures
        column_width(cells, columns, column, to) == column_width(cells, columns, column, from),
    decreases to,
{
    if from < to {
        lemma_column_skip(cells, columns, column, from, (to - 1) as nat);
        assert((to - 1) % (columns as int) != column);
    }
}

/// The indices of a column stand `columns` apart.
proof fn lemma_column_indices(columns: int, j: int)
    requires
        columns > 0,
        j >= 0,
    ensures
        (j + columns) % columns == j % columns,
        forall|k: int| j < k < j + columns ==> #[trigger] (k % columns) != j % columns,
{
    vstd::arithmetic::div_mod::lemma_mod_add_multiples_vanish(j, columns);
    assert forall|k: int| j < k < j + columns implies #[trigger] (k % columns) != j % columns by {
        if k % columns == j % columns {
            vstd::arithmetic::div_mod::lemma_fundamental_div_mod(k, columns);
            vstd::arithmetic::div_mod::lemma_fundamental_div_mod(j, columns);
            assert(k - j == columns * (k / columns) - columns * (j / columns));
            let q = k / columns - j / columns;
            assert(k - j == columns * q) by (nonlinear_arith)
                requires
                    k - j == columns * (k / columns) - columns * (j / columns),
                    q == k / columns - j / columns,
            ;
            assert(false) by (nonlinear_arith)
                requires
                    k - j == columns * q,
                    0 < k - j < columns,
                    columns > 0,
            ;
        }
    }
}

/// Calculates the width of each column of a table of bindings.
pub fn calculate_sizes(buf: &VecDeque<String>, row_size: usize) -> (sizes: Vec<usize>)
    ensures
        sizes@.len() == row_size,
        forall|i: int|
            0 <= i < row_size ==> #[trigger] sizes@[i] == column_width(
                texts(buf@),
                row_size as nat,
                i as nat,
                buf@.len(),
            ),
{
    let ghost cells = texts(buf@);
    let mut sizes: Vec<usize> = Vec::new();
    let mut i: usize = 0;
    while i < row_size
        invariant
            cells == texts(buf@),
            i <= row_size,
            sizes@.len() == i,
            forall|c: int|
                0 <= c < i ==> #[trigger] sizes@[c] == column_width(
                    cells,
                    row_size as nat,
                    c as nat,
                    buf@.len(),
                ),
        decreases row_size - i,
    {
        let mut max: usize = 0;
        let mut j: usize = i;
        proof {
            assert forall|k: int| 0 <= k < i implies #[trigger] (k % (row_size as int)) != i by {
                vstd::arithmetic::div_mod::lemma_small_mod(k as nat, row_size as nat);
            }
            lemma_column_skip(cells, row_size as nat, i as nat, 0, i as nat);
            vstd::arithmetic::div_mod::lemma_small_mod(i as nat, row_size as nat);
            if i > buf@.len() {
                lemma_column_skip(cells, row_size as nat, i as nat, buf@.len(), i as nat);
            }
        }
        while j < buf.len()
            invariant
                cells == texts(buf@),
                i < row_size,
                j >= buf@.len() ==> max == column_width(
                    cells,
                    row_size as nat,
                    i as nat,
                    buf@.len(),
                ),
                j < buf@.len() ==> j % row_size == i && max == column_width(
                    cells,
                    row_size as nat,
                    i as nat,
                    j as nat,
                ),
            decreases buf@.len() - j,
        {
            let len: usize = byte_width(buf[j].as_str());
            proof {
                lemma_column_indices(row_size as int, j as int);
                let next = if j + row_size < buf@.len() {
                    (j + row_size) as nat
                } else {
                    buf@.len()
                };
                lemma_column_skip(cells, row_size as nat, i as nat, (j + 1) as nat, next);
            }
            if len > max {
                max = len;
            }
            if buf.len() - j > row_size {
                j += row_size;
            } else {
                j = buf.len();
            }
        }
        sizes.push(max);
        i += 1;
    }
    sizes
}

/// Collects the bindings of a cell list.
pub fn collect_items(nodes: &Vec<SyntaxNode<'_>>) -> (buf: VecDeque<String>)
    ensures
        texts(buf@) == binding_items(nodes_of(nodes@)),
{
    let ghost all = nodes_of(nodes@);
    let mut buf: VecDeque<String> = VecDeque::new();
    let mut item = String::new();
    let mut k: usize = 1;
    assert(texts(buf@) =~= seq![]);
    while k < nodes.len() && classify(nodes[k].kind) != Kind::AngleClose
        invariant
            all == nodes_of(nodes@),
            1 <= k,
            bindings_from(all, k as int, texts(buf@), item@) == binding_items(all),
        decreases nodes@.len() - k,
    {
        let text = trim(nodes[k].text);
        if !item.as_str().is_empty() && begins_with(text, "&") {
            proof {
                assert(texts(buf@.push(item)) =~= texts(buf@).push(item@));
            }
            buf.push_back(item);
            item = String::new();
        }
        if !item.as_str().is_empty() {
            item.append(" ");
        }
        item.append(text);
        proof {
            assert(Seq::<char>::empty() + text@ =~= text@);
        }
        k += 1;
    }
    assert(texts(buf@.push(item)) =~= texts(buf@).push(item@));
    buf.push_back(item);
    buf
}

/// Collects the bindings of a cell list at the positions of the layout.
pub fn collect_bindings(nodes: &Vec<SyntaxNode<'_>>, ctx: &Context) -> (cells: VecDeque<String>)
    ensures
        texts(cells@) == arranged(
            binding_items(nodes_of(nodes@)),
            layout_cells(ctx.config.layout),
        ),
{
    let mut buf = collect_items(nodes);
    let ghost items = texts(buf@);
    let layout = get_layout(&ctx.config.layout);
    let ghost positions = layout.bindings@;
    let mut cells: VecDeque<String> = VecDeque::new();
    let mut j: usize = 0;
    assert(items.skip(0) =~= items);
    while j < layout.bindings.len()
        invariant
            positions == layout.bindings@,
            j <= positions.len(),
            cells@.len() == j,
            keys_before(positions, j as int) <= items.len() ==> texts(buf@) == items.skip(
                keys_before(positions, j as int) as int,
            ),
            keys_before(positions, j as int) > items.len() ==> buf@.len() == 0,
            forall|c: int| 0 <= c < j ==> #[trigger] cells@[c]@ == cell_at(items, positions, c),
        decreases positions.len() - j,
    {
        let ghost before = buf@;
        let cell = if layout.bindings[j] == 1 {
            match buf.pop_front() {
                Some(item) => {
                    proof {
                        let key = keys_before(positions, j as int) as int;
                        assert(texts(before)[0] == items.skip(key)[0]);
                        assert(texts(buf@) =~= texts(before).skip(1));
                        assert(items.skip(key).skip(1) =~= items.skip(key + 1));
                    }
                    item
                },
                None => {
                    proof {
                        let key = keys_before(positions, j as int) as int;
                        assert(texts(before).len() == 0);
                        if key <= items.len() {
                            assert(items.skip(key).len() == 0);
                        }
                    }
                    String::new()
                },
            }
        } else {
            String::new()
        };
        assert(cell@ =~= cell_at(items, positions, j as int));
        cells.push_back(cell);
        j += 1;
    }
    assert(texts(cells@) =~= arranged(items, positions));
    cells
}

/// Prints a table of bindings as a grid.
pub fn print_grid(writer: &mut Writer, buf: &VecDeque<String>, row_size: usize, ctx: &Context)
    requires
        row_size > 0,
    ensures
        final(writer)@ == old(writer)@.write(
            grid_cells(texts(buf@), row_size as nat, ctx.indent as nat, buf@.len()),
        ),
{
    let ghost cells = texts(buf@);
    let ghost start = writer@;
    let sizes = calculate_sizes(buf, row_size);
    let mut i: usize = 0;
    assert(start.text + Seq::<char>::empty() =~= start.text);
    while i < buf.len()
        invariant
            cells == texts(buf@),
            row_size > 0,
            i <= buf@.len(),
            sizes@.len() == row_size,
            forall|c: int|
                0 <= c < row_size ==> #[trigger] sizes@[c] == column_width(
                    cells,
                    row_size as nat,
                    c as nat,
                    buf@.len(),
                ),
            writer@ == start.write(grid_cells(cells, row_size as nat, ctx.indent as nat, i as nat)),
        decreases buf@.len() - i,
    {
        let ghost done = writer@.text;
        let col: usize = i % row_size;
        if col == 0 {
            writer.push_str("\n");
            writer.print_indent(ctx);
        }
        if (i + 1) % row_size == 0 {
            writer.push_str(buf[i].as_str());
        } else {
            writer.push_padded(buf[i].as_str(), sizes[col]);
            writer.push_str("   ");
            proof {
                reveal_strlit("   ");
                lemma_column_width(cells, row_size as nat, col as nat, buf@.len(), i as int);
                let cell = cells[i as int];
                let size = sizes@[col as int] as nat;
                assert(padded(cell, size) + "   "@ =~= padded(cell, size + 3));
            }
        }
        proof {
            assert(writer@.text =~= done + grid_cell(cells, row_size as nat, ctx.indent as nat, i as int));
            assert(writer@.text =~= start.text + grid_cells(
                cells,
                row_size as nat,
                ctx.indent as nat,
                (i + 1) as nat,
            ));
        }
        i += 1;
    }
}

/// Prints the bindings of a keymap in the grid of the layout.
pub fn print_bindings(writer: &mut Writer, nodes: &Vec<SyntaxNode<'_>>, ctx: &Context)
    ensures
        final(writer)@ == old(writer)@.write(bindings_grid(nodes_of(nodes@), ctx.config.layout, ctx.indent as nat)),
{
    let ghost start = writer@.text;
    writer.push_str("<");
    let buf = collect_bindings(nodes, ctx);
    let row_size: usize = get_layout(&ctx.config.layout).row_size();
    print_grid(writer, &buf, row_size, ctx);
    writer.push_str("\n");
    writer.print_indent(&ctx.dec(1));
    writer.push_str(">");
    assert(writer@.text =~= start + bindings_grid(nodes_of(nodes@), ctx.config.layout, ctx.indent as nat));
}

} // verus!
