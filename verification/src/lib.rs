//! A formatter for Devicetree sources.
//!
//! [`printer::print`] parses a source and prints its syntax tree with uniform
//! indentation and spacing. Consecutive macro definitions can be aligned, and the
//! bindings of a keymap are laid out in the grid of the keyboard.
pub mod bindings;
pub mod config;
pub mod context;
pub mod define;
pub mod kind;
pub mod laws;
pub mod layouts;
pub mod printer;
pub mod syntax;
pub mod text;
pub mod tree;
pub mod writer;
