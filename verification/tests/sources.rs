use dprint_plugin_markdown::blocks::PreservedChild;
use dprint_plugin_markdown::format::PrintSettings;
use dprint_plugin_markdown::gen_block::{HeadingKind, MetadataBlockKind, TableFormat};
use dprint_plugin_markdown::gen_inline::{keep_asterisk, DecorationChar, TextWrap};
use dprint_plugin_markdown::gen_nodes::NodeKind;
use dprint_plugin_markdown::generate::{
    embedded_format_request, embedded_format_result, generate, preserved_nodes, print_file_checked, set_formatted,
    GenConfig, MdNode, NodeData, SourceFacts,
};
use dprint_plugin_markdown::print::{is_printable, print_checked, trace_checked, PrintItem, PrintSignal};
use dprint_plugin_markdown::source::{ignore_comment_kind, IgnoreKind};

fn chars(s: &str) -> Vec<char> {
    s.chars().collect()
}

fn settings() -> PrintSettings {
    PrintSettings { indent_width: 1, max_width: 80, use_tabs: false, new_line_text: "\n" }
}

fn config() -> GenConfig {
    GenConfig {
        text_wrap: TextWrap::Maintain,
        line_width: 80,
        heading_kind: HeadingKind::Atx,
        table_format: TableFormat::Aligned,
        emphasis: DecorationChar::Underscores,
        strong: DecorationChar::Asterisks,
        bullet: '-',
        alternate_bullet: '*',
    }
}

fn node(kind: NodeKind, start: usize, end: usize, text: &str, data: NodeData, children: Vec<MdNode>) -> MdNode {
    MdNode {
        kind,
        start,
        end,
        facts: SourceFacts { starts_with_list_word: false },
        text: chars(text),
        data,
        children,
    }
}

fn text(start: usize, t: &str) -> MdNode {
    node(NodeKind::Text, start, start + t.chars().count(), t, NodeData::Text(vec![]), vec![])
}

fn print_tree(children: Vec<MdNode>, source: &str) -> String {
    let tree = node(NodeKind::SourceFile, 0, source.chars().count(), "", NodeData::Plain, children);
    let items = generate(&tree, &chars(source), &config(), &chars("dprint-ignore"));
    print_file_checked(&items, &settings()).unwrap()
}

#[test]
fn html_and_mdx_comments_are_ignore_directives() {
    let d = chars("dprint-ignore");
    assert_eq!(ignore_comment_kind(&chars("<!-- dprint-ignore -->"), &d), IgnoreKind::Ignore);
    assert_eq!(ignore_comment_kind(&chars("{/* dprint-ignore */}"), &d), IgnoreKind::Ignore);
    assert_eq!(ignore_comment_kind(&chars("<!--dprint-ignore-start-->"), &d), IgnoreKind::IgnoreStart);
    assert_eq!(ignore_comment_kind(&chars("{/*  dprint-ignore-end  */}"), &d), IgnoreKind::IgnoreEnd);
    assert_eq!(ignore_comment_kind(&chars("<!-- other -->"), &d), IgnoreKind::NotIgnore);
    assert_eq!(ignore_comment_kind(&chars("dprint-ignore"), &d), IgnoreKind::NotIgnore);
    assert_eq!(ignore_comment_kind(&chars("<!-- dprint-ignore"), &d), IgnoreKind::NotIgnore);
}

#[test]
fn preserved_mdx_ignore_comment_keeps_the_next_paragraph() {
    let source = "{/* dprint-ignore */}\n\nSome   text\n";
    let paragraph = node(NodeKind::Paragraph, 23, 34, "", NodeData::Marker(None), vec![text(23, "Some   text")]);
    let plan = vec![PreservedChild::Raw(0..21), PreservedChild::Node(0)];
    let children = preserved_nodes(vec![paragraph], &plan);
    assert_eq!(children.len(), 2);
    assert_eq!(children[0].kind, NodeKind::Html);
    assert_eq!((children[0].start, children[0].end), (0, 21));
    assert_eq!(children[1].start, 23);
    assert_eq!(print_tree(children, source), "{/* dprint-ignore */}\n\nSome   text\n");
}

#[test]
fn adjacent_preserved_blocks_keep_their_blank_line_and_lose_trailing_spaces() {
    let source = "import a from 'a'   \n\n<Foo />\n";
    let plan = vec![PreservedChild::Raw(0..20), PreservedChild::Raw(22..29)];
    let children = preserved_nodes(vec![], &plan);
    assert_eq!(print_tree(children, source), "import a from 'a'\n\n<Foo />\n");
}

#[test]
fn embedded_formatter_requests() {
    let code = node(
        NodeKind::CodeBlock,
        0,
        30,
        "\n\nlet a = 1;  \n",
        NodeData::CodeBlock(Some(chars("rust,ignore")), true, None),
        vec![],
    );
    assert_eq!(embedded_format_request(&code), Some((chars("rust"), chars("let a = 1;"))));
    let blank = node(NodeKind::CodeBlock, 0, 10, " \n ", NodeData::CodeBlock(Some(chars("rust")), true, None), vec![]);
    assert_eq!(embedded_format_request(&blank), None);
    let untagged = node(NodeKind::CodeBlock, 0, 10, "x", NodeData::CodeBlock(None, true, None), vec![]);
    assert_eq!(embedded_format_request(&untagged), None);
    let yaml = node(NodeKind::MetadataBlock, 0, 10, "a: 1\n", NodeData::Metadata(MetadataBlockKind::YamlStyle, None), vec![]);
    assert_eq!(embedded_format_request(&yaml), Some((chars("yaml"), chars("a: 1\n"))));
    let toml = node(NodeKind::MetadataBlock, 0, 10, "a=1\n", NodeData::Metadata(MetadataBlockKind::PlusesStyle, None), vec![]);
    assert_eq!(embedded_format_request(&toml), Some((chars("toml"), chars("a=1\n"))));
    assert_eq!(embedded_format_request(&text(0, "x")), None);
}

#[test]
fn embedded_formatter_answers() {
    assert_eq!(embedded_format_result(Ok(Some("b".to_string()))), Some(chars("b")));
    assert_eq!(embedded_format_result(Ok(None)), None);
    assert_eq!(embedded_format_result(Err(anyhow::Error::msg("bad"))), None);
    let mut code = node(NodeKind::CodeBlock, 0, 10, "x", NodeData::CodeBlock(Some(chars("js")), true, None), vec![]);
    set_formatted(&mut code, Some(chars("y")));
    match &code.data {
        NodeData::CodeBlock(tag, fenced, formatted) => {
            assert_eq!(tag, &Some(chars("js")));
            assert!(*fenced);
            assert_eq!(formatted, &Some(chars("y")));
        }
        _ => panic!("the code block data changed kind"),
    }
    assert_eq!(code.text, chars("x"));
}

#[test]
fn asterisks_stay_before_a_word_character() {
    assert!(keep_asterisk(&chars("*word*something"), 6));
    assert!(keep_asterisk(&chars("*word*9"), 6));
    assert!(!keep_asterisk(&chars("*word* x"), 6));
    assert!(!keep_asterisk(&chars("*word*"), 6));
    assert!(!keep_asterisk(&chars("_word_x"), 6));
}

#[test]
fn unbalanced_items_are_not_printed() {
    let lone_finish = vec![PrintItem::Signal(PrintSignal::FinishIndent)];
    assert!(!is_printable(&lone_finish));
    assert_eq!(print_checked(&lone_finish, &settings()), None);
    let open = vec![PrintItem::Signal(PrintSignal::StartIndent), PrintItem::Text(chars("a"))];
    assert!(!is_printable(&open));
    let broken = vec![PrintItem::Text(chars("a\nb"))];
    assert!(!is_printable(&broken));
    let good = vec![
        PrintItem::Signal(PrintSignal::StartIndent),
        PrintItem::Text(chars("a")),
        PrintItem::Signal(PrintSignal::NewLine),
        PrintItem::Text(chars("b")),
        PrintItem::Signal(PrintSignal::FinishIndent),
    ];
    assert!(is_printable(&good));
    assert_eq!(print_checked(&good, &settings()), Some(" a\n b".to_string()));
}

#[test]
fn tabs_in_words_become_tab_signals() {
    let source = "a\tb";
    let p = node(NodeKind::Paragraph, 0, 3, "", NodeData::Marker(None), vec![node(NodeKind::Code, 0, 3, "a\tb", NodeData::Plain, vec![])]);
    let out = print_tree(vec![p], source);
    assert!(out.starts_with("`a"));
    assert!(out.ends_with("b`\n"));
}

#[test]
fn soft_breaks_change_nothing() {
    let source = "a\nb";
    let with_break = node(
        NodeKind::Paragraph,
        0,
        3,
        "",
        NodeData::Marker(None),
        vec![text(0, "a"), node(NodeKind::SoftBreak, 1, 2, "", NodeData::Plain, vec![]), text(2, "b")],
    );
    let without_break = node(NodeKind::Paragraph, 0, 3, "", NodeData::Marker(None), vec![text(0, "a"), text(2, "b")]);
    let a = print_tree(vec![with_break], source);
    let b = print_tree(vec![without_break], source);
    assert_eq!(a, b);
    assert_eq!(a, "a\nb\n");
}

#[test]
fn generated_items_are_balanced() {
    let source = "> 1. a\n>    > b";
    let inner_quote = node(
        NodeKind::BlockQuote,
        12,
        15,
        "",
        NodeData::Plain,
        vec![node(NodeKind::Paragraph, 14, 15, "", NodeData::Marker(None), vec![text(14, "b")])],
    );
    let item = node(
        NodeKind::Item,
        2,
        15,
        "",
        NodeData::Item(None, 2),
        vec![node(NodeKind::Paragraph, 5, 6, "", NodeData::Marker(None), vec![text(5, "a")]), inner_quote],
    );
    let list = node(NodeKind::List, 2, 15, "", NodeData::List(Some(1)), vec![item]);
    let quote = node(NodeKind::BlockQuote, 0, 15, "", NodeData::Plain, vec![list]);
    let tree = node(NodeKind::SourceFile, 0, 15, "", NodeData::Plain, vec![quote]);
    let items = generate(&tree, &chars(source), &config(), &chars("dprint-ignore"));
    assert!(is_printable(&items));
    assert!(print_checked(&items, &settings()).is_some());
}

#[test]
fn tracing_follows_the_same_check() {
    let lone_finish = vec![PrintItem::Signal(PrintSignal::FinishIndent)];
    assert!(trace_checked(&lone_finish, &settings()).is_none());
    let good = vec![PrintItem::Text(chars("a")), PrintItem::Signal(PrintSignal::NewLine), PrintItem::Text(chars("b"))];
    let trace = trace_checked(&good, &settings()).unwrap();
    assert!(!trace.print_nodes.is_empty());
    assert!(!trace.writer_nodes.is_empty());
}

#[test]
fn a_line_break_inside_one_text_is_refused_by_the_printer_check() {
    let source = "![a\nb](u)";
    let image = node(NodeKind::InlineImage, 0, 9, "a\nb", NodeData::Link(chars("u"), None), vec![]);
    let p = node(NodeKind::Paragraph, 0, 9, "", NodeData::Marker(None), vec![image]);
    let tree = node(NodeKind::SourceFile, 0, 9, "", NodeData::Plain, vec![p]);
    let items = generate(&tree, &chars(source), &config(), &chars("dprint-ignore"));
    assert!(!is_printable(&items));
    assert_eq!(print_file_checked(&items, &settings()), None);
}
