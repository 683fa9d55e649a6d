//! Keyboard layouts: where the keys of a keymap stand in its grid.
use vstd::prelude::*;

verus! {

/// The keyboards whose keymaps can be laid out.
#[derive(Clone, Copy, PartialEq, Eq, Structural, Debug)]
pub enum KeyboardLayoutType {
    /// Kinesis Advantage 360.
    Adv360,
}

/// A grid of key positions, row by row.
pub struct KeyboardLayout {
    /// `1` where the grid has a key, any other number where it has a gap.
    pub bindings: Vec<u8>,
    /// How many positions a row has.
    pub columns: usize,
}

/// The positions of a layout, row by row.
pub open spec fn layout_cells(layout: KeyboardLayoutType) -> Seq<u8> {
    match layout {
        KeyboardLayoutType::Adv360 => seq![
            1, 1, 1, 1, 1, 1, 1, 0, 0, 0, 0, 1, 1, 1, 1, 1, 1, 1,
            1, 1, 1, 1, 1, 1, 1, 0, 0, 0, 0, 1, 1, 1, 1, 1, 1, 1,
            1, 1, 1, 1, 1, 1, 1, 1, 1, 1, 1, 1, 1, 1, 1, 1, 1, 1,
            1, 1, 1, 1, 1, 1, 0, 0, 1, 1, 0, 0, 1, 1, 1, 1, 1, 1,
            1, 1, 1, 1, 1, 0, 1, 1, 1, 1, 1, 1, 0, 1, 1, 1, 1, 1,
        ],
    }
}

/// How many positions a row of a layout has.
pub open spec fn layout_columns(layout: KeyboardLayoutType) -> nat {
    match layout {
        KeyboardLayoutType::Adv360 => 18,
    }
}

/// Gives the layout of a keyboard.
pub fn get_layout(layout: &KeyboardLayoutType) -> (r: KeyboardLayout)
    ensures
        r.bindings@ == layout_cells(*layout),
        r.columns == layout_columns(*layout),
{
    match layout {
        KeyboardLayoutType::Adv360 => KeyboardLayout {
            bindings: vec![
            1, 1, 1, 1, 1, 1, 1, 0, 0, 0, 0, 1, 1, 1, 1, 1, 1, 1,
            1, 1, 1, 1, 1, 1, 1, 0, 0, 0, 0, 1, 1, 1, 1, 1, 1, 1,
            1, 1, 1, 1, 1, 1, 1, 1, 1, 1, 1, 1, 1, 1, 1, 1, 1, 1,
            1, 1, 1, 1, 1, 1, 0, 0, 1, 1, 0, 0, 1, 1, 1, 1, 1, 1,
            1, 1, 1, 1, 1, 0, 1, 1, 1, 1, 1, 1, 0, 1, 1, 1, 1, 1,
            ],
            columns: 18,
        },
    }
}

impl KeyboardLayout {
    /// How many positions a row has.
    pub fn row_size(&self) -> (n: usize)
        ensures
            n == self.columns,
    {
        self.columns
    }
}

} // verus!
