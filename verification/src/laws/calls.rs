//! What the calls of the library give, whatever they are given.
use std::collections::VecDeque;

use vstd::prelude::*;

use crate::bindings::{arranged, binding_items, collect_bindings, collect_items};
use crate::config::{Config, ConfigBuilder};
use crate::context::Context;
use crate::define::{define_comment, define_value, split_define_value_comment};
use crate::layouts::{layout_cells, KeyboardLayoutType};
use crate::printer::{formatted, print, render};
use crate::syntax::{nodes_of, SyntaxNode};
use crate::text::texts;
use crate::writer::Writer;

verus! {

/// A source is formatted to the text of its page, and rendered to the page.
pub proof fn law_calls_give_the_page(
    source: String,
    text: &str,
    config: Config,
    output: String,
    writer: Writer,
)
    ensures
        call_ensures(print, (&source, &config), output) ==> output@ == formatted(
            source@,
            config,
        ).text,
        call_ensures(render, (text, &config), writer) ==> writer@ == formatted(text@, config),
{
}

/// The text of a macro is split into its value and its comment.
pub proof fn law_split_gives_value_and_comment(raw: &str, r: (String, Option<String>))
    requires
        call_ensures(split_define_value_comment, (raw,), r),
    ensures
        r.0@ == define_value(raw@),
        r.1 is Some == define_comment(raw@) is Some,
        r.1 is Some ==> r.1->0@ == define_comment(raw@)->0,
{
}

/// The bindings of a cell list are collected one by one, and then laid out at
/// the positions of the layout.
pub proof fn law_collecting_gives_the_bindings(
    nodes: &Vec<SyntaxNode<'_>>,
    ctx: Context,
    items: VecDeque<String>,
    cells: VecDeque<String>,
)
    ensures
        call_ensures(collect_items, (nodes,), items) ==> texts(items@) == binding_items(
            nodes_of(nodes@),
        ),
        call_ensures(collect_bindings, (nodes, &ctx), cells) ==> texts(cells@) == arranged(
            binding_items(nodes_of(nodes@)),
            layout_cells(ctx.config.layout),
        ),
{
}

/// Each setting is set alone, the others stay, and nothing is reported or
/// aligned unless it is asked for.
pub proof fn law_settings_are_set_alone(
    builder: ConfigBuilder,
    layout: KeyboardLayoutType,
    switch: bool,
    r: ConfigBuilder,
    config: Config,
)
    ensures
        call_ensures(Config::builder, (), r) ==> !r.config.warn_on_unhandled_tokens
            && !r.config.align_define,
        call_ensures(ConfigBuilder::layout, (builder, layout), r) ==> r.config.layout == layout
            && r.config.warn_on_unhandled_tokens == builder.config.warn_on_unhandled_tokens
            && r.config.align_define == builder.config.align_define,
        call_ensures(ConfigBuilder::warn_on_unhandled_tokens, (builder, switch), r)
            ==> r.config.warn_on_unhandled_tokens == switch && r.config.layout
            == builder.config.layout && r.config.align_define == builder.config.align_define,
        call_ensures(ConfigBuilder::align_define, (builder, switch), r) ==> r.config.align_define
            == switch && r.config.layout == builder.config.layout
            && r.config.warn_on_unhandled_tokens == builder.config.warn_on_unhandled_tokens,
        call_ensures(ConfigBuilder::build, (builder,), config) ==> config == builder.config,
{
}

} // verus!
