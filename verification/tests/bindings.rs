use std::collections::VecDeque;

use dtsfmt::bindings::{calculate_sizes, collect_bindings, collect_items, print_grid};
use dtsfmt::config::Config;
use dtsfmt::context::Context;
use dtsfmt::layouts::{get_layout, KeyboardLayoutType};
use dtsfmt::syntax::SyntaxNode;
use dtsfmt::writer::Writer;

fn table(cells: &[&str]) -> VecDeque<String> {
    cells.iter().map(|c| c.to_string()).collect()
}

fn leaf<'a>(kind: &'a str, text: &'a str) -> SyntaxNode<'a> {
    SyntaxNode { kind, text, name: None, value: None, children: Vec::new() }
}

fn cells<'a>(texts: &[&'a str]) -> Vec<SyntaxNode<'a>> {
    let mut nodes = vec![leaf("<", "<")];
    for text in texts {
        nodes.push(leaf("cell", text));
    }
    nodes.push(leaf(">", ">"));
    nodes.push(leaf("cell", "&behind"));
    nodes
}

fn context(indent: usize) -> Context {
    Context { indent, bindings: true, keymap: true, config: Config::builder().build() }
}

#[test]
fn sizes_are_the_widest_of_each_column() {
    assert_eq!(calculate_sizes(&table(&["a", "bbb", "cc", "d", "eeee"]), 2), [4, 3]);
    assert_eq!(calculate_sizes(&table(&["a"]), 3), [1, 0, 0]);
    assert_eq!(calculate_sizes(&table(&[]), 2), [0, 0]);
    assert_eq!(calculate_sizes(&table(&["a"]), 0), [] as [usize; 0]);
    assert_eq!(calculate_sizes(&table(&["é"]), 1), [2]);
}

#[test]
fn ampersand_begins_a_binding() {
    let items = collect_items(&cells(&["&kp", " A ", "&mt", "LSHFT", "B", "&none"]));
    assert_eq!(items, ["&kp A", "&mt LSHFT B", "&none"]);
}

#[test]
fn empty_cell_list_has_one_empty_binding() {
    assert_eq!(collect_items(&cells(&[])), [""]);
    assert_eq!(collect_items(&cells(&["A", "&b"])), ["A", "&b"]);
}

#[test]
fn bindings_stand_at_keys_and_gaps_stay_empty() {
    let arranged = collect_bindings(&cells(&["&a", "&b", "&c", "&d", "&e", "&f", "&g", "&h"]), &context(1));
    let layout = get_layout(&KeyboardLayoutType::Adv360);
    assert_eq!(arranged.len(), layout.bindings.len());
    assert_eq!(layout.row_size(), 18);
    assert_eq!(layout.bindings.iter().filter(|p| **p == 1).count(), 76);
    assert_eq!(arranged[0], "&a");
    assert_eq!(arranged[6], "&g");
    for gap in 7..11 {
        assert_eq!(arranged[gap], "");
    }
    assert_eq!(arranged[11], "&h");
    assert_eq!(arranged[12], "");
}

#[test]
fn bindings_beyond_the_keys_are_left_out() {
    let texts: Vec<String> = (0..80).map(|i| format!("&b{}", i)).collect();
    let refs: Vec<&str> = texts.iter().map(|t| t.as_str()).collect();
    let arranged = collect_bindings(&cells(&refs), &context(1));
    let kept: Vec<&String> = arranged.iter().filter(|c| !c.is_empty()).collect();
    assert_eq!(kept.len(), 76);
    assert_eq!(kept[75], "&b75");
}

#[test]
fn grid_pads_all_but_the_last_column() {
    let mut writer = Writer::new();
    print_grid(&mut writer, &table(&["a", "b", "cc", "dddd"]), 2, &context(1));
    assert_eq!(writer.text, "\n  a    b\n  cc   dddd");
}
