//! What holds of the formatter as a whole.
pub mod alignment;
pub mod bytes;
pub mod calls;
pub mod defines;
pub mod grids;
pub mod keymaps;
pub mod macros;
pub mod printing;
pub mod rules;
pub mod sources;
pub mod stability;
pub mod texts;
