use dtsfmt::config::Config;
use dtsfmt::context::Context;
use dtsfmt::printer::print_tree;
use dtsfmt::syntax::{is_well_shaped, SyntaxNode};
use dtsfmt::writer::Writer;

fn node<'a>(kind: &'a str, text: &'a str, children: Vec<SyntaxNode<'a>>) -> SyntaxNode<'a> {
    SyntaxNode { kind, text, name: None, value: None, children }
}

fn define<'a>(name: &'a str, value: Option<&'a str>) -> SyntaxNode<'a> {
    SyntaxNode { kind: "preproc_def", text: "", name: Some(name), value, children: Vec::new() }
}

fn print(root: SyntaxNode<'_>, config: &Config) -> Writer {
    assert!(is_well_shaped(&root));
    print_tree(root, config)
}

#[test]
fn missing_parts_are_noticed() {
    assert!(is_well_shaped(&node("document", "", vec![])));
    assert!(!is_well_shaped(&node("node", "x", vec![])));
    assert!(!is_well_shaped(&node("document", "", vec![node("property", "x", vec![])])));
    assert!(is_well_shaped(&node("byte_string_literal", "[]", vec![])));
    assert!(!is_well_shaped(&node("byte_string_literal", "[", vec![])));
    assert!(!is_well_shaped(&node("byte_string_literal", "é]", vec![])));
    assert!(!is_well_shaped(&node("integer_cells", "<", vec![])));
    let deep = node("x", "<", vec![node("<", "<", vec![])]);
    assert!(!is_well_shaped(&node("integer_cells", "<", vec![deep])));
}

#[test]
fn childless_root_is_printed_itself() {
    let config = Config::builder().build();
    assert_eq!(print(node("identifier", "x", vec![]), &config).text, "x");
}

#[test]
fn children_are_counted_in_warnings() {
    let config = Config::builder().warn_on_unhandled_tokens(true).build();
    let children = (0..12).map(|_| node("identifier", "x", vec![])).collect();
    let page = print(node("document", "", vec![node("odd", "t", children)]), &config);
    assert_eq!(page.warnings, ["unhandled type 'odd' (12 children): t"]);
    assert_eq!(page.text, "xxxxxxxxxxxx");
}

#[test]
fn unhandled_node_indents_all_but_its_first_child() {
    let config = Config::builder().build();
    let children = vec![node("comment", "//a", vec![]), node("comment", "//b", vec![])];
    let page = print(node("document", "", vec![node("odd", "", children)]), &config);
    assert_eq!(page.text, "// a\n  // b\n");
}

#[test]
fn block_of_defines_is_printed_once() {
    let config = Config::builder().align_define(true).build();
    let root = node(
        "document",
        "",
        vec![
            define("A", Some(" 1 // one")),
            define("LONG", Some("22")),
            define("B", None),
            node("identifier", "x", vec![]),
        ],
    );
    let page = print(root, &config);
    assert_eq!(page.text, "#define A    1   // one\n#define LONG 22\n#define B\n\nx");
}

#[test]
fn directive_follows_define_without_blank_line() {
    let config = Config::builder().build();
    let directive = node(
        "preproc_include",
        "",
        vec![node("#include", "#include", vec![]), node("string_literal", "\"a\"", vec![])],
    );
    let root = node("document", "", vec![define(" A ", Some("  ")), directive]);
    assert_eq!(print(root, &config).text, "#define A\n#include \"a\"\n");
}

#[test]
fn blank_line_before_a_comment_is_not_doubled() {
    let mut writer = Writer::new();
    writer.push_str("a\n");
    writer.sep();
    assert_eq!(writer.text, "a\n\n");
    writer.sep();
    assert_eq!(writer.text, "a\n\n");
}

#[test]
fn levels_cancel_and_stop_at_the_outermost() {
    let config = Config::builder().build();
    let ctx = Context { indent: 2, bindings: false, keymap: false, config };
    assert_eq!(ctx.inc(3).dec(3), ctx);
    assert_eq!(ctx.dec(5).indent, 0);
    assert_eq!(ctx.inc(usize::MAX).indent, usize::MAX);
    assert!(!ctx.keymap().has_zephyr_syntax());
    assert!(ctx.keymap().bindings().has_zephyr_syntax());
}
