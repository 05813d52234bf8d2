use dprint_plugin_markdown::format::PrintSettings;
use dprint_plugin_markdown::gen_block::{ColumnAlignment, HeadingKind, MetadataBlockKind, TableFormat};
use dprint_plugin_markdown::gen_inline::{DecorationChar, TextDecorationKind, TextWrap};
use dprint_plugin_markdown::gen_nodes::NodeKind;
use dprint_plugin_markdown::generate::{generate, print_file_checked, GenConfig, MdNode, NodeData, SourceFacts};

fn chars(s: &str) -> Vec<char> {
    s.chars().collect()
}

fn config(table_format: TableFormat) -> GenConfig {
    GenConfig {
        text_wrap: TextWrap::Maintain,
        line_width: 80,
        heading_kind: HeadingKind::Atx,
        table_format,
        emphasis: DecorationChar::Underscores,
        strong: DecorationChar::Asterisks,
        bullet: '-',
        alternate_bullet: '*',
    }
}

fn facts() -> SourceFacts {
    SourceFacts {
        starts_with_list_word: false,
    }
}

fn node(kind: NodeKind, start: usize, end: usize, text: &str, data: NodeData, children: Vec<MdNode>) -> MdNode {
    MdNode {
        kind,
        start,
        end,
        facts: facts(),
        text: chars(text),
        data,
        children,
    }
}

fn text(start: usize, t: &str) -> MdNode {
    node(NodeKind::Text, start, start + t.chars().count(), t, NodeData::Text(vec![]), vec![])
}

fn file(source: &str, children: Vec<MdNode>) -> MdNode {
    node(NodeKind::SourceFile, 0, source.chars().count(), "", NodeData::Plain, children)
}

fn print(tree: &MdNode, source: &str, format: TableFormat) -> String {
    let items = generate(tree, &chars(source), &config(format), &chars("dprint-ignore"));
    let settings = PrintSettings { indent_width: 1, max_width: 80, use_tabs: false, new_line_text: "\n" };
    print_file_checked(&items, &settings).unwrap()
}

fn cell(start: usize, t: &str) -> MdNode {
    node(NodeKind::TableCell, start, start + t.len(), "", NodeData::Plain, vec![text(start, t)])
}

fn table(source: &str) -> MdNode {
    // | a | long |
    // |---|---|
    // | bbbb | c |
    let header = node(NodeKind::TableHead, 0, 12, "", NodeData::Plain, vec![cell(2, "a"), cell(6, "long")]);
    let row = node(NodeKind::TableRow, 23, 35, "", NodeData::Plain, vec![cell(25, "bbbb"), cell(32, "c")]);
    let t = node(NodeKind::Table, 0, 35, "", NodeData::Table(vec![]), vec![header, row]);
    file(source, vec![t])
}

#[test]
fn tables_are_aligned_by_default_and_compact_on_request() {
    let source = "| a | long |\n|---|---|\n| bbbb | c |";
    let tree = table(source);
    assert_eq!(print(&tree, source, TableFormat::Aligned), "| a    | long |\n| ---- | ---- |\n| bbbb | c    |\n");
    assert_eq!(print(&tree, source, TableFormat::Compact), "| a | long |\n| --- | --- |\n| bbbb | c |\n");
}

#[test]
fn aligned_table_keeps_alignments() {
    let source = "| a | long |\n|--:|:-:|\n| bbbb | c |";
    let mut tree = table(source);
    tree.children[0].data = NodeData::Table(vec![ColumnAlignment::Right, ColumnAlignment::Center]);
    assert_eq!(print(&tree, source, TableFormat::Aligned), "|    a | long |\n| ---: | :--: |\n| bbbb |  c   |\n");
}

#[test]
fn paragraphs_are_separated_by_blank_lines() {
    let source = "one  two\nthree\n\nfour";
    let p1 = node(NodeKind::Paragraph, 0, 14, "", NodeData::Marker(None), vec![text(0, "one  two\nthree")]);
    let p2 = node(NodeKind::Paragraph, 16, 20, "", NodeData::Marker(None), vec![text(16, "four")]);
    let tree = file(source, vec![p1, p2]);
    assert_eq!(print(&tree, source, TableFormat::Aligned), "one two\nthree\n\nfour\n");
}

#[test]
fn lists_number_and_indent_their_items() {
    let source = "3. a\n4. b";
    let i1 = node(NodeKind::Item, 0, 4, "", NodeData::Item(None, 1), vec![text(3, "a")]);
    let i2 = node(NodeKind::Item, 5, 9, "", NodeData::Item(None, 1), vec![text(8, "b")]);
    let list = node(NodeKind::List, 0, 9, "", NodeData::List(Some(3)), vec![i1, i2]);
    let tree = file(source, vec![list]);
    assert_eq!(print(&tree, source, TableFormat::Aligned), "3. a\n4. b\n");
    let source = "* x";
    let item = node(NodeKind::Item, 0, 3, "", NodeData::Item(Some(true), 1), vec![text(2, "x")]);
    let list = node(NodeKind::List, 0, 3, "", NodeData::List(None), vec![item]);
    let tree = file(source, vec![list]);
    assert_eq!(print(&tree, source, TableFormat::Aligned), "- [x] x\n");
}

#[test]
fn block_quotes_prefix_each_line() {
    let source = "> a\n> b";
    let p = node(NodeKind::Paragraph, 2, 7, "", NodeData::Marker(None), vec![text(2, "a\nb")]);
    let quote = node(NodeKind::BlockQuote, 0, 7, "", NodeData::Plain, vec![p]);
    let tree = file(source, vec![quote]);
    assert_eq!(print(&tree, source, TableFormat::Aligned), "> a\n> b\n");
}

#[test]
fn ignore_comment_keeps_next_node_from_its_indentation() {
    let source = "<!-- dprint-ignore -->\n  *  x  *   \n\nnext";
    let comment = node(NodeKind::Html, 0, 22, "", NodeData::Plain, vec![]);
    let kept = node(NodeKind::Paragraph, 25, 34, "", NodeData::Marker(None), vec![]);
    let next = node(NodeKind::Paragraph, 37, 41, "", NodeData::Marker(None), vec![text(37, "next")]);
    let tree = file(source, vec![comment, kept, next]);
    assert_eq!(print(&tree, source, TableFormat::Aligned), "<!-- dprint-ignore -->\n  *  x  *\n\nnext\n");
}

#[test]
fn code_blocks_and_decorations() {
    let source = "```rust,ignore\nlet a = 1;  \n```\n\n__b__";
    let code = node(
        NodeKind::CodeBlock,
        0,
        31,
        "let a = 1;  \n",
        NodeData::CodeBlock(Some(chars("rust,ignore")), true, None),
        vec![],
    );
    let strong = node(
        NodeKind::TextDecoration,
        33,
        38,
        "",
        NodeData::Decoration(TextDecorationKind::Strong),
        vec![text(35, "b")],
    );
    let tree = file(source, vec![code, strong]);
    assert_eq!(print(&tree, source, TableFormat::Aligned), "```rust,ignore\nlet a = 1;\n```\n\n**b**\n");
}

#[test]
fn metadata_is_taken_from_the_formatter_for_both_languages() {
    let source = "+++\na=1\n+++\n";
    let block = node(
        NodeKind::MetadataBlock,
        0,
        11,
        "a=1\n",
        NodeData::Metadata(MetadataBlockKind::PlusesStyle, Some(chars("a = 1  \n"))),
        vec![],
    );
    let tree = file(source, vec![block]);
    assert_eq!(print(&tree, source, TableFormat::Aligned), "+++\na = 1\n+++\n");
}

#[test]
fn short_links_stay_on_one_line() {
    let source = "[a b](u)";
    let link = node(
        NodeKind::InlineLink,
        0,
        8,
        "",
        NodeData::Link(chars(" u "), Some(chars("t"))),
        vec![text(1, "a b")],
    );
    let p = node(NodeKind::Paragraph, 0, 8, "", NodeData::Marker(None), vec![link]);
    let tree = file(source, vec![p]);
    assert_eq!(print(&tree, source, TableFormat::Aligned), "[a b](u \"t\")\n");
}

#[test]
fn empty_document_prints_nothing() {
    let tree = file("", vec![]);
    assert_eq!(print(&tree, "", TableFormat::Aligned), "");
}
