//! The output of the printer: the formatted text and the warnings.
use vstd::prelude::*;
use vstd::string::*;

use crate::context::Context;
use crate::text::{byte_width, ends, ends_blank, spaces, texts, width};

verus! {

/// What has been printed.
#[verifier::ext_equal]
pub struct Page {
    /// The formatted text.
    pub text: Seq<char>,
    /// The warnings, in the order in which they came up.
    pub warnings: Seq<Seq<char>>,
}

impl Page {
    /// The page with a text added at the end.
    pub open spec fn write(self, text: Seq<char>) -> Page {
        Page { text: self.text + text, ..self }
    }

    /// The page with the indentation of a place added.
    pub open spec fn indent(self, ctx: Context) -> Page {
        self.write(spaces(2 * ctx.indent as nat))
    }

    /// The page with a newline added unless it ends with a blank line.
    pub open spec fn separate(self) -> Page {
        if ends(self.text, "\n\n"@) {
            self
        } else {
            self.write("\n"@)
        }
    }

    /// The page with a newline added where the condition holds.
    pub open spec fn newline_if(self, condition: bool) -> Page {
        if condition {
            self.write("\n"@)
        } else {
            self
        }
    }

    /// The page with a warning added.
    pub open spec fn warn(self, warning: Seq<char>) -> Page {
        Page { warnings: self.warnings.push(warning), ..self }
    }
}

/// A text with spaces added up to a width in bytes.
pub open spec fn padded(text: Seq<char>, size: nat) -> Seq<char> {
    if width(text) < size {
        text + spaces((size - width(text)) as nat)
    } else {
        text
    }
}

/// Collects the formatted text and the warnings.
pub struct Writer {
    /// The formatted text.
    pub text: String,
    /// The warnings, in the order in which they came up.
    pub warnings: Vec<String>,
}

impl View for Writer {
    type V = Page;

    open spec fn view(&self) -> Page {
        Page { text: self.text@, warnings: texts(self.warnings@) }
    }
}

impl Writer {
    /// An empty page.
    pub fn new() -> (r: Writer)
        ensures
            r@ == (Page { text: seq![], warnings: seq![] }),
    {
        Writer { text: String::new(), warnings: Vec::new() }
    }

    /// Adds a text.
    pub fn push_str(&mut self, text: &str)
        ensures
            final(self)@ == old(self)@.write(text@),
    {
        self.text.append(text);
    }

    /// Adds a number of spaces.
    pub fn push_spaces(&mut self, n: usize)
        ensures
            final(self)@ == old(self)@.write(spaces(n as nat)),
    {
        let mut i: usize = 0;
        proof {
            reveal_strlit(" ");
            assert(old(self)@.text + spaces(0) =~= old(self)@.text);
        }
        while i < n
            invariant
                i <= n,
                self@ == old(self)@.write(spaces(i as nat)),
                " "@ == seq![' '],
            decreases n - i,
        {
            self.text.append(" ");
            proof {
                assert(old(self)@.text + spaces(i as nat) + " "@ =~= old(self)@.text + spaces(
                    (i + 1) as nat,
                ));
            }
            i += 1;
        }
    }

    /// Adds the indentation of a place.
    pub fn print_indent(&mut self, ctx: &Context)
        ensures
            final(self)@ == old(self)@.indent(*ctx),
    {
        self.push_spaces(ctx.indent);
        self.push_spaces(ctx.indent);
        proof {
            let n = ctx.indent as nat;
            assert(old(self)@.text + spaces(n) + spaces(n) =~= old(self)@.text + spaces(2 * n));
        }
    }

    /// Adds a newline unless the text ends with a blank line.
    pub fn sep(&mut self)
        ensures
            final(self)@ == old(self)@.separate(),
    {
        if !ends_blank(self.text.as_str()) {
            self.push_str("\n");
        }
    }

    /// Adds a newline where the condition holds.
    pub fn newline_if(&mut self, condition: bool)
        ensures
            final(self)@ == old(self)@.newline_if(condition),
    {
        if condition {
            self.push_str("\n");
        }
    }

    /// Adds a text and spaces up to a width in bytes.
    pub fn push_padded(&mut self, text: &str, size: usize)
        ensures
            final(self)@ == old(self)@.write(padded(text@, size as nat)),
    {
        let n: usize = byte_width(text);
        self.push_str(text);
        if n < size {
            self.push_spaces(size - n);
            proof {
                let pad = spaces((size - n) as nat);
                assert(old(self)@.text + text@ + pad =~= old(self)@.text + (text@ + pad));
            }
        }
    }

    /// Adds a warning.
    pub fn warn(&mut self, warning: String)
        ensures
            final(self)@ == old(self)@.warn(warning@),
    {
        proof {
            assert(texts(self.warnings@.push(warning)) =~= texts(self.warnings@).push(warning@));
        }
        self.warnings.push(warning);
    }
}

} // verus!
