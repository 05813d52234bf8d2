use dprint_plugin_markdown::blocks::{
    mdx_embedded_block, preserve_mdx_embedded_blocks, BlockKind, BlockNode, MdxEmbeddedBlock,
    MdxEmbeddedBlockKind, PreservedChild,
};
use dprint_plugin_markdown::embed::{format_mdx_embedded_blocks, mdx_format_candidates, FormattedBlock};
use dprint_plugin_markdown::lines::{collect_line_ranges, first_nonblank_line_exec};
use dprint_plugin_markdown::mdx::{
    fenced_code_delimiter_kind, has_leading_indent, is_markdown_child_line, is_mdx_esm_block,
    is_mdx_import_declaration_start, is_mdx_import_like_non_esm_block, is_mdx_jsx_block,
    is_mdx_jsx_closing_line, is_mdx_jsx_opening_line, is_mdx_jsx_paragraph,
    is_standalone_mdx_expression_block, mdx_jsx_tag_name, single_line_jsx_contains_markdown_child,
    single_line_jsx_has_closing_tag, starts_with_keyword_and_whitespace, starts_with_mdx_esm_keyword,
};
use dprint_plugin_markdown::preserve::{
    find_top_level_jsx_closing_line, jsx_range_contains_markdown_child, mdx_line_boundary_preserve_ranges,
};

fn c(s: &str) -> Vec<char> {
    s.chars().collect()
}

fn string(v: &[char]) -> String {
    v.iter().collect()
}

fn node(kind: BlockKind, start: usize, end: usize) -> BlockNode {
    BlockNode { kind, range: start..end }
}

#[test]
fn fence_delimiters() {
    assert_eq!(fenced_code_delimiter_kind(&c("```js")), Some('`'));
    assert_eq!(fenced_code_delimiter_kind(&c("~~~")), Some('~'));
    assert_eq!(fenced_code_delimiter_kind(&c("``")), None);
    assert_eq!(fenced_code_delimiter_kind(&c("~~`")), None);
    assert!(has_leading_indent(&c(" x")));
    assert!(has_leading_indent(&c("\tx")));
    assert!(!has_leading_indent(&c("x ")));
}

#[test]
fn jsx_blocks() {
    assert!(is_mdx_jsx_block(&c("  <Foo />  ")));
    assert!(!is_mdx_jsx_block(&c("<!-- comment -->")));
    assert!(!is_mdx_jsx_block(&c("<!DOCTYPE html>")));
    assert!(!is_mdx_jsx_block(&c("<?xml version=\"1.0\"?>")));
    assert!(!is_mdx_jsx_block(&c("<a")));
    assert!(!is_mdx_jsx_block(&c("text <a>")));
    assert!(is_mdx_jsx_opening_line(&c("<Foo>")));
    assert!(!is_mdx_jsx_opening_line(&c("</Foo>")));
    assert!(!is_mdx_jsx_opening_line(&c("<Foo />")));
    assert!(is_mdx_jsx_paragraph(&c("<Foo>\n</Foo>\n")));
    assert!(!is_mdx_jsx_paragraph(&c("<Foo> text")));
}

#[test]
fn jsx_tag_names() {
    assert_eq!(mdx_jsx_tag_name(&c("<Foo bar>")).map(string), Some("Foo".to_string()));
    assert_eq!(mdx_jsx_tag_name(&c("<Foo>")).map(string), Some("Foo".to_string()));
    assert_eq!(mdx_jsx_tag_name(&c("<a.b/>")).map(string), Some("a.b".to_string()));
    assert_eq!(mdx_jsx_tag_name(&c("<>")), None);
    assert_eq!(mdx_jsx_tag_name(&c("</Foo>")), None);
    assert_eq!(mdx_jsx_tag_name(&c("< Foo>")), None);
    assert_eq!(mdx_jsx_tag_name(&c("Foo")), None);
}

#[test]
fn jsx_closing_lines() {
    assert!(is_mdx_jsx_closing_line(&c("</Foo>"), &c("Foo")));
    assert!(is_mdx_jsx_closing_line(&c("</Foo >"), &c("Foo")));
    assert!(!is_mdx_jsx_closing_line(&c("</Foobar>"), &c("Foo")));
    assert!(!is_mdx_jsx_closing_line(&c("</Foo"), &c("Foo")));
    assert!(!is_mdx_jsx_closing_line(&c("<Foo>"), &c("Foo")));
    assert!(single_line_jsx_has_closing_tag(&c("<Foo>hi</Foo>"), &c("Foo")));
    assert!(!single_line_jsx_has_closing_tag(&c("<Foo>hi</Foobar>"), &c("Foo")));
    assert!(!single_line_jsx_has_closing_tag(&c("<Foo>"), &c("Foo")));
}

#[test]
fn markdown_children() {
    assert!(single_line_jsx_contains_markdown_child(&c("<Foo>**hi**</Foo>"), &c("Foo")));
    assert!(!single_line_jsx_contains_markdown_child(&c("<Foo><Bar /></Foo>"), &c("Foo")));
    assert!(!single_line_jsx_contains_markdown_child(&c("<Foo>{x}</Foo>"), &c("Foo")));
    assert!(!single_line_jsx_contains_markdown_child(&c("<Foo></Foo>"), &c("Foo")));
    assert!(!single_line_jsx_contains_markdown_child(&c("<Foo>text"), &c("Foo")));
    assert!(is_markdown_child_line(&c("  text")));
    assert!(!is_markdown_child_line(&c("  <b>")));
    assert!(!is_markdown_child_line(&c("{x}")));
    assert!(!is_markdown_child_line(&c("   ")));
}

#[test]
fn esm_recognition() {
    assert!(starts_with_keyword_and_whitespace(&c("import x"), &c("import")));
    assert!(!starts_with_keyword_and_whitespace(&c("importx"), &c("import")));
    assert!(!starts_with_keyword_and_whitespace(&c("import"), &c("import")));
    assert!(is_mdx_import_declaration_start(&c("import x from 'y'")));
    assert!(!is_mdx_import_declaration_start(&c("import('x')")));
    assert!(!is_mdx_import_declaration_start(&c("import ('x')")));
    assert!(!is_mdx_import_declaration_start(&c("import .meta")));
    assert!(starts_with_mdx_esm_keyword(&c("\n\n  export const a = 1")));
    assert!(!starts_with_mdx_esm_keyword(&c("exports are fun")));
    assert!(is_mdx_esm_block(&c("import {A} from \"a\"\r\n")));
    assert!(is_mdx_import_like_non_esm_block(&c("import (the) thing")));
    assert!(!is_mdx_import_like_non_esm_block(&c("import x from 'y'")));
    assert!(!is_mdx_import_like_non_esm_block(&c("important")));
    assert!(is_standalone_mdx_expression_block(&c(" {a} ")));
    assert!(!is_standalone_mdx_expression_block(&c("{a} b")));
}

#[test]
fn line_ranges() {
    let ranges = collect_line_ranges(&c("a\r\nbc\n\nd"));
    assert_eq!(ranges, vec![0..1, 3..5, 6..6, 7..8]);
    let ranges = collect_line_ranges(&c("x\r\r\n"));
    assert_eq!(ranges, vec![0..1]);
    assert!(collect_line_ranges(&c("")).is_empty());
    assert_eq!(string(first_nonblank_line_exec(&c("  \n\t\nabc\r\nx"))), "abc");
    assert_eq!(string(first_nonblank_line_exec(&c(" \n "))), "");
    assert_eq!(string(first_nonblank_line_exec(&c("ab\r"))), "ab\r");
}

#[test]
fn preserve_ranges_for_markdown_children() {
    assert_eq!(mdx_line_boundary_preserve_ranges(&c("<Note>\nSome *text*\n</Note>\n")), vec![0..26]);
    assert_eq!(mdx_line_boundary_preserve_ranges(&c("<Note>**hi**</Note>\n")), vec![0..19]);
    assert!(mdx_line_boundary_preserve_ranges(&c("```\n<Note>\nhi\n</Note>\n```\n")).is_empty());
    assert!(mdx_line_boundary_preserve_ranges(&c("  <Note>\nhi\n</Note>\n")).is_empty());
    assert!(mdx_line_boundary_preserve_ranges(&c("<Foo>\n  <Bar />\n</Foo>\n")).is_empty());
    assert!(mdx_line_boundary_preserve_ranges(&c("<Foo>\nhi\n")).is_empty());
    assert_eq!(mdx_line_boundary_preserve_ranges(&c("<A>\n<A>\nx\n</A>\n</A>\n")), vec![0..19, 4..14]);
}

#[test]
fn top_level_closing_lines() {
    let text = c("<A>\n<A>\nx\n</A>\n</A>\n");
    let lines = collect_line_ranges(&text);
    assert_eq!(find_top_level_jsx_closing_line(&lines, &text, 1, &c("A")), Some(4));
    assert_eq!(find_top_level_jsx_closing_line(&lines, &text, 2, &c("A")), Some(3));
    assert_eq!(find_top_level_jsx_closing_line(&lines, &text, 1, &c("B")), None);
    assert!(jsx_range_contains_markdown_child(&lines, &text, 1, 4));
    assert!(!jsx_range_contains_markdown_child(&lines, &text, 3, 4));
    let fenced = c("<A>\n```\n</A>\n```\n</A>\n");
    let lines = collect_line_ranges(&fenced);
    assert_eq!(find_top_level_jsx_closing_line(&lines, &fenced, 1, &c("A")), Some(4));
}

#[test]
fn embedded_blocks_of_nodes() {
    let text = c("import a from 'a'\n\n<Foo />\n\n# Hi\n");
    let b = mdx_embedded_block(&node(BlockKind::Paragraph, 0, 17), &text).unwrap();
    assert!(b.kind == MdxEmbeddedBlockKind::Esm);
    assert_eq!(b.range, 0..17);
    let b = mdx_embedded_block(&node(BlockKind::Html, 19, 26), &text).unwrap();
    assert!(b.kind == MdxEmbeddedBlockKind::Jsx);
    assert!(mdx_embedded_block(&node(BlockKind::Other, 28, 32), &text).is_none());
    assert!(mdx_embedded_block(&node(BlockKind::Paragraph, 28, 32), &text).is_none());
}

#[test]
fn preserved_children() {
    let text = c("import a from 'a'\n\n<Foo />\n\n# Hi\n\n{expr}\n");
    let nodes = vec![
        node(BlockKind::Paragraph, 0, 17),
        node(BlockKind::Html, 19, 26),
        node(BlockKind::Other, 28, 32),
        node(BlockKind::Paragraph, 34, 40),
    ];
    let children = preserve_mdx_embedded_blocks(&nodes, &text);
    assert_eq!(
        children,
        vec![
            PreservedChild::Raw(0..17),
            PreservedChild::Raw(19..26),
            PreservedChild::Node(2),
            PreservedChild::Raw(34..40),
        ]
    );
}

#[test]
fn preserved_children_merge_runs() {
    let text = c("import a from 'a'\n\nexport const b = 1\n\n<X />\n");
    let nodes = vec![node(BlockKind::Paragraph, 0, 17), node(BlockKind::Paragraph, 19, 37), node(BlockKind::Html, 39, 44)];
    let children = preserve_mdx_embedded_blocks(&nodes, &text);
    assert_eq!(children, vec![PreservedChild::Raw(0..37), PreservedChild::Raw(39..44)]);
    let text = c("{a}\n\n{b}\n\nplain\n");
    let nodes = vec![node(BlockKind::Paragraph, 0, 3), node(BlockKind::Paragraph, 5, 8), node(BlockKind::Paragraph, 10, 15)];
    let children = preserve_mdx_embedded_blocks(&nodes, &text);
    assert_eq!(children, vec![PreservedChild::Raw(0..8), PreservedChild::Node(2)]);
}

#[test]
fn preserved_children_keep_jsx_with_markdown() {
    let text = c("<Note>\nSome *text*\n</Note>\n\nafter\n");
    let nodes = vec![
        node(BlockKind::Html, 0, 7),
        node(BlockKind::Paragraph, 7, 19),
        node(BlockKind::Html, 19, 27),
        node(BlockKind::Paragraph, 28, 33),
    ];
    let children = preserve_mdx_embedded_blocks(&nodes, &text);
    assert_eq!(children, vec![PreservedChild::Raw(0..26), PreservedChild::Node(3)]);
}

#[test]
fn format_candidates_skip_preserved_ranges() {
    let text = c("<Note>**hi**</Note>\n\n<X a={1} />\n");
    let nodes = vec![node(BlockKind::Html, 0, 19), node(BlockKind::Html, 21, 33)];
    let candidates = mdx_format_candidates(&nodes, &text);
    assert_eq!(candidates.len(), 1);
    assert_eq!(candidates[0].range, 21..33);
    assert!(candidates[0].kind == MdxEmbeddedBlockKind::Jsx);
}

fn formatted(text: &str, nodes: Option<Vec<BlockNode>>) -> Option<FormattedBlock> {
    Some(FormattedBlock { text: c(text), parsed: nodes })
}

#[test]
fn unsafe_or_identical_replacements_are_rejected() {
    let text = c("<Component format_mdx_jsx={true}></Component>\n");
    let candidates = vec![MdxEmbeddedBlock { kind: MdxEmbeddedBlockKind::Jsx, range: 0..45 }];
    // A result that also holds Markdown is not safe.
    let injected = formatted(
        "<Component />\n\n# injected markdown\n",
        Some(vec![node(BlockKind::Html, 0, 13), node(BlockKind::Other, 15, 34)]),
    );
    assert_eq!(format_mdx_embedded_blocks(&text, &candidates, &vec![injected]), None);
    // A result that failed to parse is not safe.
    let broken = formatted("<Component format_mdx_jsx_unsafe={true}", None);
    assert_eq!(format_mdx_embedded_blocks(&text, &candidates, &vec![broken]), None);
    // The same text again changes nothing.
    let same = formatted("<Component format_mdx_jsx={true}></Component>\n\n", Some(vec![node(BlockKind::Html, 0, 45)]));
    assert_eq!(format_mdx_embedded_blocks(&text, &candidates, &vec![same]), None);
    // No result changes nothing.
    assert_eq!(format_mdx_embedded_blocks(&text, &candidates, &vec![None]), None);
    // A safe result replaces the block.
    let good = formatted("<Component format_mdx_jsx={true} />\n", Some(vec![node(BlockKind::Html, 0, 35)]));
    let result = format_mdx_embedded_blocks(&text, &candidates, &vec![good]).unwrap();
    assert_eq!(string(&result), "<Component format_mdx_jsx={true} />\n");
}

#[test]
fn safe_formatted_text_keeps_the_kind() {
    let esm = MdxEmbeddedBlock { kind: MdxEmbeddedBlockKind::Esm, range: 0..1 };
    let text = c("import { A } from \"a\"");
    let parsed = vec![node(BlockKind::Paragraph, 0, 21)];
    assert!(esm.is_safe_formatted_text(&text, Some(&parsed)));
    assert!(!esm.is_safe_formatted_text(&text, None));
    assert!(!esm.is_safe_formatted_text(&text, Some(&Vec::new())));
    let jsx_text = c("<A />");
    let jsx_parsed = vec![node(BlockKind::Html, 0, 5)];
    assert!(!esm.is_safe_formatted_text(&jsx_text, Some(&jsx_parsed)));
    let jsx = MdxEmbeddedBlock { kind: MdxEmbeddedBlockKind::Jsx, range: 0..1 };
    assert!(jsx.is_safe_formatted_text(&jsx_text, Some(&jsx_parsed)));
}

#[test]
fn replacements_splice_in_order() {
    let text = c("import {a} from 'a'\n\ntext\n\n<B  x={1}/>\n");
    let candidates = vec![
        MdxEmbeddedBlock { kind: MdxEmbeddedBlockKind::Esm, range: 0..19 },
        MdxEmbeddedBlock { kind: MdxEmbeddedBlockKind::Jsx, range: 27..38 },
    ];
    let outcomes = vec![
        formatted("import { a } from 'a'\n", Some(vec![node(BlockKind::Paragraph, 0, 21)])),
        formatted("<B x={1} />", Some(vec![node(BlockKind::Html, 0, 11)])),
    ];
    let result = format_mdx_embedded_blocks(&text, &candidates, &outcomes).unwrap();
    assert_eq!(string(&result), "import { a } from 'a'\n\ntext\n\n<B x={1} />\n");
}
