//! The settings of the formatter.
use vstd::prelude::*;

use crate::layouts::KeyboardLayoutType;

verus! {

/// The settings of the formatter.
#[derive(Clone, Copy, PartialEq, Eq, Structural, Debug)]
pub struct Config {
    /// The keyboard whose grid keymap bindings are laid out in.
    pub layout: KeyboardLayoutType,
    /// Whether to report the nodes that the printer has no rule for.
    pub warn_on_unhandled_tokens: bool,
    /// Whether to align the values and comments of consecutive defines.
    pub align_define: bool,
}

/// Collects the settings of a [`Config`].
#[derive(Clone, Copy, PartialEq, Eq, Structural, Debug)]
pub struct ConfigBuilder {
    /// The settings so far.
    pub config: Config,
}

impl Config {
    /// Starts from the default settings: nothing is reported and defines are
    /// not aligned.
    pub fn builder() -> (r: ConfigBuilder)
        ensures
            r.config == (Config {
                layout: KeyboardLayoutType::Adv360,
                warn_on_unhandled_tokens: false,
                align_define: false,
            }),
    {
        ConfigBuilder {
            config: Config {
                layout: KeyboardLayoutType::Adv360,
                warn_on_unhandled_tokens: false,
                align_define: false,
            },
        }
    }
}

impl ConfigBuilder {
    /// Sets the keyboard layout.
    pub fn layout(self, layout: KeyboardLayoutType) -> (r: ConfigBuilder)
        ensures
            r.config == (Config { layout: layout, ..self.config }),
    {
        ConfigBuilder { config: Config { layout: layout, ..self.config } }
    }

    /// Sets whether nodes without a rule are reported.
    pub fn warn_on_unhandled_tokens(self, warn: bool) -> (r: ConfigBuilder)
        ensures
            r.config == (Config { warn_on_unhandled_tokens: warn, ..self.config }),
    {
        ConfigBuilder { config: Config { warn_on_unhandled_tokens: warn, ..self.config } }
    }

    /// Sets whether consecutive defines are aligned.
    pub fn align_define(self, align: bool) -> (r: ConfigBuilder)
        ensures
            r.config == (Config { align_define: align, ..self.config }),
    {
        ConfigBuilder { config: Config { align_define: align, ..self.config } }
    }

    /// The settings that were collected.
    pub fn build(self) -> (r: Config)
        ensures
            r == self.config,
    {
        self.config
    }
}

} // verus!
