//! What the printer knows about the place where it is.
use vstd::prelude::*;

use crate::config::Config;

verus! {

/// The place where the printer is.
#[derive(Clone, Copy, PartialEq, Eq, Structural, Debug)]
pub struct Context {
    /// How many levels the output is indented.
    pub indent: usize,
    /// Whether the place is inside an item named `bindings`.
    pub bindings: bool,
    /// Whether the place is inside an item named `keymap`.
    pub keymap: bool,
    /// The settings.
    pub config: Config,
}

/// The place that is a number of levels deeper.
pub open spec fn deeper(ctx: Context, levels: nat) -> Context {
    Context {
        indent: if ctx.indent + levels <= usize::MAX {
            (ctx.indent + levels) as usize
        } else {
            usize::MAX
        },
        ..ctx
    }
}

/// The place that is a number of levels less deep, the outermost at most.
pub open spec fn shallower(ctx: Context, levels: nat) -> Context {
    Context {
        indent: if ctx.indent >= levels {
            (ctx.indent - levels) as usize
        } else {
            0
        },
        ..ctx
    }
}

/// The indentation that is one level less deep, the outermost at most.
pub open spec fn outdented(indent: nat) -> nat {
    if indent > 0 {
        (indent - 1) as nat
    } else {
        0
    }
}

/// The place inside an item with the given name.
pub open spec fn inside(ctx: Context, name: Seq<char>) -> Context {
    let ctx = deeper(ctx, 1);
    if name == "keymap"@ {
        Context { keymap: true, ..ctx }
    } else if name == "bindings"@ {
        Context { bindings: true, ..ctx }
    } else {
        ctx
    }
}

/// Whether the cells here are the bindings of a keymap.
pub open spec fn in_keymap_bindings(ctx: Context) -> bool {
    ctx.keymap && ctx.bindings
}

impl Context {
    /// Goes deeper by a number of levels.
    pub fn inc(&self, levels: usize) -> (r: Context)
        ensures
            r == deeper(*self, levels as nat),
    {
        let indent: usize = if levels <= usize::MAX - self.indent {
            self.indent + levels
        } else {
            usize::MAX
        };
        Context { indent: indent, ..*self }
    }

    /// Goes back by a number of levels, to the outermost at most.
    pub fn dec(&self, levels: usize) -> (r: Context)
        ensures
            r == shallower(*self, levels as nat),
    {
        let indent: usize = if self.indent >= levels {
            self.indent - levels
        } else {
            0
        };
        Context { indent: indent, ..*self }
    }

    /// Enters an item named `keymap`.
    pub fn keymap(&self) -> (r: Context)
        ensures
            r == (Context { keymap: true, ..*self }),
    {
        Context { keymap: true, ..*self }
    }

    /// Enters an item named `bindings`.
    pub fn bindings(&self) -> (r: Context)
        ensures
            r == (Context { bindings: true, ..*self }),
    {
        Context { bindings: true, ..*self }
    }

    /// Whether the cells here are the bindings of a keymap.
    pub fn has_zephyr_syntax(&self) -> (r: bool)
        ensures
            r == in_keymap_bindings(*self),
    {
        self.keymap && self.bindings
    }
}

} // verus!
