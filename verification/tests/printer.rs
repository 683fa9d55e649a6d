use dtsfmt::config::Config;
use dtsfmt::layouts::KeyboardLayoutType;
use dtsfmt::printer::{print, render};

fn config(align_define: bool) -> Config {
    Config::builder()
        .layout(KeyboardLayoutType::Adv360)
        .align_define(align_define)
        .build()
}

#[test]
fn define_alignment_is_disabled_by_default() {
    let source = [
        "#define JP_DQUOTE AT // \"",
        "#define JP_UNDERSCORE LS(0x87) // _",
        "",
    ]
    .join("\n");

    let output = print(&source, &config(false));

    assert_eq!(
        output,
        [
            "#define JP_DQUOTE AT // \"",
            "#define JP_UNDERSCORE LS(0x87) // _",
            "",
        ]
        .join("\n")
    );
}

#[test]
fn define_alignment_can_be_enabled() {
    let source = [
        "#define JP_DQUOTE AT // \"",
        "#define JP_UNDERSCORE LS(0x87) // _",
        "#define JP_KANA LANGUAGE_1 // kana",
        "#define JP_EMPTY",
        "#define JP_TRAILING VALUE",
        "",
    ]
    .join("\n");

    let output = print(&source, &config(true));

    assert_eq!(
        output,
        [
            "#define JP_DQUOTE     AT          // \"",
            "#define JP_UNDERSCORE LS(0x87)    // _",
            "#define JP_KANA       LANGUAGE_1  // kana",
            "#define JP_EMPTY",
            "#define JP_TRAILING   VALUE",
            "",
        ]
        .join("\n")
    );
}

#[test]
fn define_alignment_does_not_stop_following_output() {
    let source = [
        "#define FIRST 1",
        "",
        "// comment",
        "#define SECOND 2 // two",
        "#define THIRD 3 // three",
        "",
        "&mt {",
        "  quick-tap-ms = <0>;",
        "};",
        "",
    ]
    .join("\n");

    let output = print(&source, &config(true));

    assert_eq!(
        output,
        [
            "#define FIRST 1",
            "",
            "// comment",
            "#define SECOND 2  // two",
            "#define THIRD  3  // three",
            "",
            "&mt {",
            "  quick-tap-ms = <0>;",
            "};",
            "",
        ]
        .join("\n")
    );
}

fn format(source: &str) -> String {
    print(&source.to_string(), &config(false))
}

fn warnings(source: &str) -> Vec<String> {
    let config = Config::builder().warn_on_unhandled_tokens(true).build();
    render(source, &config).warnings
}

#[test]
fn empty_source_prints_nothing() {
    assert_eq!(format(""), "");
    assert_eq!(warnings(""), ["unhandled type 'document' (0 children): "]);
}

#[test]
fn version_and_plugin_stand_apart() {
    assert_eq!(format("/dts-v1/;\n/plugin/;\n"), "/dts-v1/;\n\n/plugin/;\n\n");
}

#[test]
fn includes_stand_together() {
    let source = "#include <a.h>\n#include   \"b.h\"\n/include/ \"c.dtsi\"\n/include/ \"d.dtsi\"\n/ { };\n";
    let expected = [
        "#include <a.h>",
        "#include \"b.h\"",
        "",
        "/include/ \"c.dtsi\"",
        "/include/ \"d.dtsi\"",
        "",
        "/ {",
        "};",
        "",
    ]
    .join("\n");
    assert_eq!(format(source), expected);
}

#[test]
fn items_are_indented_and_spaced() {
    let source = "/ { label: foo@12 { reg=<0x1   0x2>,<&a 3>; s=\"a\",\"b\"; /delete-property/ x; flag; bar { }; baz {}; /delete-node/ q; }; };\n&{/soc/x@1} { status = \"ok\"; };\n";
    let expected = [
        "/ {",
        "  label: foo@12 {",
        "    reg = <0x1 0x2>, <&a 3>;",
        "    s = \"a\", \"b\";",
        "    /delete-property/ x;",
        "    flag;",
        "",
        "    bar {",
        "    };",
        "",
        "    baz {",
        "    };",
        "    /delete-node/ q;",
        "  };",
        "};",
        "",
        "&{/soc/x@1} {",
        "  status = \"ok\";",
        "};",
        "",
    ]
    .join("\n");
    assert_eq!(format(source), expected);
    assert_eq!(format(&expected), expected);
}

#[test]
fn comments_are_normalised() {
    let source = "//a\n//   b  \n////c\n//\n/*  d */\n/ { // e\n x; // f\n};\n";
    let expected = [
        "// a", "// b", "// c", "//", "/*  d */", "/ {", "  // e", "  x;", "", "  // f", "};", "",
    ]
    .join("\n");
    assert_eq!(format(source), expected);
    assert_eq!(format(&expected), expected);
}

#[test]
fn conditionals_keep_their_body() {
    let source = "#ifdef A\n/ { a; };\n#endif\n#ifndef B\n#define B   2\n#endif\n// x\n";
    let expected = [
        "#ifdef A", "/ {", "  a;", "};", "#endif", "#ifndef B", "#define B 2", "", "#endif", "",
        "// x", "",
    ]
    .join("\n");
    assert_eq!(format(source), expected);
}

#[test]
fn function_macro_keeps_its_parameters_and_value() {
    assert_eq!(format("#define F(a,b)((a) + (b))\n"), "#define F(a,b) ((a) + (b))\n");
}

#[test]
fn short_byte_string_stays_on_one_line() {
    assert_eq!(format("/ { x = [01   02 03]; };\n"), "/ {\n  x = [01 02 03];\n};\n");
}

#[test]
fn long_byte_string_takes_lines_of_sixteen() {
    let source = "/ { x = [00 01 02 03 04 05 06 07 08 09 0a 0b 0c 0d 0e 0f 10]; };\n";
    let expected = [
        "/ {",
        "  x = [",
        "    00 01 02 03 04 05 06 07 08 09 0a 0b 0c 0d 0e 0f",
        "    10",
        "  ];",
        "};",
        "",
    ]
    .join("\n");
    assert_eq!(format(source), expected);
}

#[test]
fn sixteen_bytes_fit_on_one_line() {
    let source = "/ { x = [00 01 02 03 04 05 06 07 08 09 0a 0b 0c 0d 0e 0f]; };\n";
    let expected = "/ {\n  x = [00 01 02 03 04 05 06 07 08 09 0a 0b 0c 0d 0e 0f];\n};\n";
    assert_eq!(format(source), expected);
}

#[test]
fn empty_byte_string_stays_on_one_line() {
    assert_eq!(format("/ { x = []; };\n"), "/ {\n  x = [];\n};\n");
}

#[test]
fn defines_in_a_node_are_aligned_at_its_indentation() {
    let source = "/ { #define A 1\n #define LONG 2 // c\n p; };\n";
    let expected = ["/ {", "  #define A    1", "  #define LONG 2  // c", "", "  p;", "};", ""]
        .join("\n");
    assert_eq!(print(&source.to_string(), &config(true)), expected);
}

#[test]
fn unhandled_nodes_are_reported_in_order() {
    assert_eq!(
        warnings("#undef A\n"),
        [
            "unhandled type 'preproc_undef' (2 children): #undef A\n",
            "unhandled type '#undef' (0 children): #undef",
        ]
    );
    assert_eq!(
        warnings("/ { x = [; };\n"),
        ["unhandled type 'ERROR' (1 child): [", "unhandled type '[' (0 children): ["]
    );
}

#[test]
fn warnings_are_off_by_default_and_leave_the_text() {
    let source = "/memreserve/ 0x1 0x2;\n/ { a = <(1 + 2) F(3)>; };\n";
    let quiet = render(source, &Config::builder().build());
    let loud = render(source, &Config::builder().warn_on_unhandled_tokens(true).build());
    assert!(quiet.warnings.is_empty());
    assert!(!loud.warnings.is_empty());
    assert_eq!(quiet.text, loud.text);
    assert_eq!(quiet.text, ";\n/ {\n  a = <( 1 + 2 ) F(3)>;\n};\n");
}

#[test]
fn unmatched_brace_is_printed_at_the_outermost_level() {
    assert_eq!(format("}; foo\n"), "};\nfoo");
}

#[test]
fn text_outside_ascii_is_kept() {
    let source = "// é\n#define A \"ü\" // ö\n#define LANG x // y\n";
    let expected = ["// é", "#define A    \"ü\"  // ö", "#define LANG x     // y", ""].join("\n");
    assert_eq!(print(&source.to_string(), &config(true)), expected);
}

#[test]
fn alignment_changes_nothing_without_defines() {
    let source = "#include <a.h>\n// x\n/ { a = <1>; b { }; };\n";
    let source = source.to_string();
    assert_eq!(print(&source, &config(true)), print(&source, &config(false)));
}

#[test]
fn keymap_bindings_fill_the_grid() {
    let source = "/ { keymap { l { bindings = <&kp A &mo 1 &kp LC(X) &none>; }; }; };\n";
    let output = format(source);
    let lines: Vec<&str> = output.lines().collect();
    assert_eq!(lines[0], "/ {");
    assert_eq!(lines[1], "  keymap {");
    assert_eq!(lines[2], "    l {");
    assert_eq!(lines[3], "      bindings = <");
    assert!(lines[4].starts_with("        &kp A   &mo 1   &kp LC(X)   &none   "));
    assert_eq!(lines[4].trim(), "&kp A   &mo 1   &kp LC(X)   &none");
    for row in 5..9 {
        assert_eq!(lines[row].trim(), "");
        assert_eq!(lines[row].len(), lines[4].len());
    }
    assert_eq!(lines[9], "      >;");
    assert_eq!(lines[10], "    };");
}

#[test]
fn bindings_outside_a_keymap_are_cells() {
    let source = "/ { macros { bindings = <&kp A   &mo 1>; }; };\n";
    let expected = "/ {\n  macros {\n    bindings = <&kp A &mo 1>;\n  };\n};\n";
    assert_eq!(format(source), expected);
}

#[test]
fn aligned_output_is_stable() {
    let source = "#define A 1 //one\n#define LONG \"//\"   // two\n#define B\n";
    let once = print(&source.to_string(), &config(true));
    assert_eq!(
        once,
        "#define A    1     // one\n#define LONG \"//\"  // two\n#define B\n"
    );
    assert_eq!(print(&once, &config(true)), once);
}

fn without_white(text: &str) -> String {
    text.chars().filter(|c| !c.is_whitespace()).collect()
}

const DEFINES: &str = "#define A 1 // one\n#define  LONG   \"x // y\"\n#define EMPTY\n\
                       #define B 'c' //two\n";

#[test]
fn alignment_moves_only_white_space() {
    let nested = "#ifdef X\n#define A 1 // a\n#define LONG 22 // b\n#endif\n\
                  / { #define P 1\n #define QQ 2 // c\n p; };\n#define END\n";
    for source in [DEFINES, nested] {
        let plain = print(&source.to_string(), &config(false));
        let aligned = print(&source.to_string(), &config(true));
        assert_ne!(plain, aligned);
        assert_eq!(without_white(&plain), without_white(&aligned));
        assert_eq!(aligned.matches("#define").count(), source.matches("#define").count());
    }
}

#[test]
fn blank_comment_is_kept_on_its_own_and_dropped_by_alignment() {
    let source = "#define A 1 //  \n#define B 2\n".to_string();
    assert_eq!(print(&source, &config(false)), "#define A 1 //\n#define B 2\n");
    assert_eq!(print(&source, &config(true)), "#define A 1\n#define B 2\n");
}

#[test]
fn printed_defines_print_alike_again() {
    let plain = [
        "#define A 1 // one",
        "#define LONG \"x // y\"",
        "#define EMPTY",
        "#define B 'c' //two",
        "",
    ]
    .join("\n");
    let aligned = [
        "#define A     1         // one",
        "#define LONG  \"x // y\"",
        "#define EMPTY",
        "#define B     'c'       // two",
        "",
    ]
    .join("\n");
    assert_eq!(print(&DEFINES.to_string(), &config(false)), plain);
    assert_eq!(print(&plain, &config(false)), plain);
    assert_eq!(print(&DEFINES.to_string(), &config(true)), aligned);
    assert_eq!(print(&aligned, &config(true)), aligned);
}
