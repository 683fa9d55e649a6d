//! What holds of sources, their trees, and places and pages.
use vstd::prelude::*;
use vstd::string::*;
use vstd::utf8::*;

use crate::config::Config;
use crate::context::{deeper, in_keymap_bindings, outdented, shallower, Context};
use crate::laws::rules::law_kind_by_name;
use crate::printer::{document, formatted, printed, printed_range};
use crate::syntax::{well_shaped, Syntax};
use crate::text::spaces;
use crate::tree::{is_within, parse_result, resolved, source_syntax, span_text, Parsed};
use crate::writer::Page;

verus! {

/// A document is printed from an empty page at the outermost place, outside any
/// keymap: all its nodes in order, or the document node where it has none.
pub proof fn law_document_prints_all_its_nodes(root: Syntax, config: Config)
    ensures
        ({
            let n = root.children.len() as int;
            let place = Context { indent: 0, bindings: false, keymap: false, config: config };
            let page = Page { text: Seq::empty(), warnings: Seq::empty() };
            document(root, config) == if n == 0 {
                printed(seq![root], 0, place, page)
            } else {
                printed_range(root.children, 0, n, place, page)
            }
        }),
{
}

/// A source is formatted to its document, and stays as it is, without a warning,
/// where it has no tree with all the parts that the printer reads.
pub proof fn law_source_is_formatted_or_kept(source: Seq<char>, config: Config)
    ensures
        ({
            let is_read = match source_syntax(source) {
                Some(root) => well_shaped(root),
                None => false,
            };
            &&& is_read ==> formatted(source, config) == document(
                source_syntax(source)->0,
                config,
            )
            &&& !is_read ==> formatted(source, config).text == source && formatted(
                source,
                config,
            ).warnings.len() == 0
        }),
{
}

/// A tree is refused only where the printer would have nothing to read: where an
/// inclusion, a macro with parameters, a conditional or an item has no children,
/// a cell list does not begin with a token, or a byte string has no bracket of
/// one byte at each end.
pub proof fn law_trees_with_all_parts(node: Syntax)
    ensures
        well_shaped(node) == ({
            let n = node.children.len();
            let text = node.text;
            &&& node.kind == "dtsi_include"@ || node.kind == "preproc_include"@ || node.kind
                == "preproc_function_def"@ || node.kind == "preproc_ifdef"@ || node.kind
                == "node"@ || node.kind == "property"@ || node.kind == "delete_node"@ || node.kind
                == "delete_property"@ || node.kind == "integer_cells"@ ==> n > 0
            &&& node.kind == "integer_cells"@ && n > 0 ==> node.children[0].children.len() == 0
            &&& node.kind == "byte_string_literal"@ ==> text.len() >= 2 && text[0] <= '\u{7f}'
                && text[text.len() - 1] <= '\u{7f}'
            &&& forall|i: int| 0 <= i < n ==> well_shaped(#[trigger] node.children[i])
        }),
{
    law_kind_by_name(node.kind);
}

/// A node keeps its name and all its children, in order, and holds the text that
/// it spans: that whose bytes are those of the source from its start to its end.
/// The same holds of its name and its value, where it has them.
pub proof fn law_nodes_hold_what_they_span(bytes: Seq<u8>, node: Parsed)
    ensures
        ({
            let read = resolved(bytes, node);
            &&& read.kind == node.kind
            &&& read.text == span_text(bytes, (node.start, node.end))
            &&& read.name is Some == node.fields.contains_key("name"@)
            &&& read.name is Some ==> read.name->0 == span_text(bytes, node.fields["name"@])
            &&& read.value is Some == node.fields.contains_key("value"@)
            &&& read.value is Some ==> read.value->0 == span_text(bytes, node.fields["value"@])
            &&& read.children.len() == node.children.len()
            &&& forall|i: int|
                0 <= i < node.children.len() ==> #[trigger] read.children[i] == resolved(
                    bytes,
                    node.children[i],
                )
        }),
{
}

/// The text of a span has the bytes of the span, where they are the bytes of a
/// text, and is empty where they are not.
pub proof fn law_spans_have_their_bytes(bytes: Seq<u8>, span: (int, int))
    requires
        0 <= span.0 <= span.1 <= bytes.len(),
    ensures
        valid_utf8(bytes.subrange(span.0, span.1)) ==> encode_utf8(span_text(bytes, span))
            == bytes.subrange(span.0, span.1),
        !valid_utf8(bytes.subrange(span.0, span.1)) ==> span_text(bytes, span).len() == 0,
{
    if valid_utf8(bytes.subrange(span.0, span.1)) {
        decode_utf8_encode_utf8(bytes.subrange(span.0, span.1));
    }
}

/// A source has the tree that the parser makes of it, unless a node or a field
/// of it spans no range of the source.
pub proof fn law_sources_have_their_trees(source: Seq<char>)
    ensures
        match parse_result(source) {
            Some(root) => if is_within(root, encode_utf8(source).len()) {
                source_syntax(source) == Some(resolved(encode_utf8(source), root))
            } else {
                source_syntax(source) is None
            },
            None => source_syntax(source) is None,
        },
{
}

/// A node is within a source where it, its name, its value and all its children
/// span ranges of it.
pub proof fn law_nodes_within_a_source(node: Parsed, len: nat)
    ensures
        is_within(node, len) == ({
            let name = node.fields["name"@];
            let value = node.fields["value"@];
            &&& 0 <= node.start && node.start <= node.end && node.end <= len
            &&& node.fields.contains_key("name"@) ==> 0 <= name.0 && name.0 <= name.1 && name.1
                <= len
            &&& node.fields.contains_key("value"@) ==> 0 <= value.0 && value.0 <= value.1
                && value.1 <= len
            &&& forall|i: int|
                0 <= i < node.children.len() ==> is_within(#[trigger] node.children[i], len)
        }),
{
}

/// A place that is deeper or less deep differs by the levels, within what an
/// indentation can be, and in nothing else.
pub proof fn law_levels_count(ctx: Context, levels: nat)
    ensures
        deeper(ctx, levels).indent == if ctx.indent + levels > usize::MAX {
            usize::MAX as int
        } else {
            ctx.indent + levels
        },
        deeper(ctx, levels) == (Context { indent: deeper(ctx, levels).indent, ..ctx }),
        shallower(ctx, levels).indent == if levels > ctx.indent {
            0
        } else {
            ctx.indent - levels
        },
        shallower(ctx, levels) == (Context { indent: shallower(ctx, levels).indent, ..ctx }),
        outdented(levels) == if levels == 0 {
            0
        } else {
            levels - 1
        },
        in_keymap_bindings(ctx) <==> ctx.keymap && ctx.bindings,
{
}

/// What is added to a page stands behind what it holds, and texts and warnings
/// do not touch each other. Two spaces indent a level, and a page is separated
/// by one newline unless two stand at its end.
pub proof fn law_pages_only_grow(
    page: Page,
    text: Seq<char>,
    ctx: Context,
    condition: bool,
)
    ensures
        page.write(text).text == page.text + text && page.write(text).warnings == page.warnings,
        page.warn(text).text == page.text && page.warn(text).warnings == page.warnings + seq![text],
        page.indent(ctx) == page.write(spaces((ctx.indent + ctx.indent) as nat)),
        page.newline_if(condition) == if condition {
            page.write(seq!['\n'])
        } else {
            page
        },
        ({
            let n = page.text.len();
            let is_blank = n >= 2 && page.text[n - 1] == '\n' && page.text[n - 2] == '\n';
            page.separate() == if is_blank {
                page
            } else {
                page.write(seq!['\n'])
            }
        }),
{
    reveal_strlit("\n");
    reveal_strlit("\n\n");
    assert("\n"@ =~= seq!['\n']);
    let n = page.text.len();
    if n >= 2 {
        let end = page.text.skip(n - 2);
        assert(end[0] == page.text[n - 2] && end[1] == page.text[n - 1]);
        if page.text[n - 1] == '\n' && page.text[n - 2] == '\n' {
            assert(end =~= "\n\n"@);
        }
    }
}

} // verus!
