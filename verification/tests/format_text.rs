use dprint_plugin_markdown::blocks::{BlockKind, BlockNode, MdxEmbeddedBlockKind};
use dprint_plugin_markdown::embed::{format_mdx_embedded_blocks, mdx_format_candidates, FormattedBlock};
use dprint_plugin_markdown::format::{
    changed_text, config_to_print_options, strip_bom, FormatMode, NewLineKind,
};
use dprint_plugin_markdown::run::{
    format_text, format_text_for_file_path, FormatAction, FormatEvent, FormatStage, ParseError, ParseOutcome,
};
use dprint_plugin_markdown::generate::{generate, print_file_checked, GenConfig, MdNode, NodeData, SourceFacts};
use dprint_plugin_markdown::gen_block::{HeadingKind, TableFormat};
use dprint_plugin_markdown::gen_inline::{DecorationChar, TextWrap};
use dprint_plugin_markdown::gen_nodes::NodeKind;
use dprint_plugin_markdown::text::trim_end_exec;

fn chars(s: &str) -> Vec<char> {
    s.chars().collect()
}

fn string(v: &[char]) -> String {
    v.iter().collect()
}

fn expect_parse(action: FormatAction) -> String {
    match action {
        FormatAction::Parse(t) => string(&t),
        _ => panic!("expected a parse action"),
    }
}

fn expect_finish(action: FormatAction) -> Option<String> {
    match action {
        FormatAction::Finish(t) => t.map(|v| string(&v)),
        _ => panic!("expected the end of the run"),
    }
}

fn config() -> GenConfig {
    GenConfig {
        text_wrap: TextWrap::Maintain,
        line_width: 80,
        heading_kind: HeadingKind::Atx,
        table_format: TableFormat::Aligned,
        emphasis: DecorationChar::Underscores,
        strong: DecorationChar::Asterisks,
        bullet: '-',
        alternate_bullet: '*',
    }
}

fn no_facts() -> SourceFacts {
    SourceFacts {
        starts_with_list_word: false,
    }
}

fn node(kind: NodeKind, start: usize, end: usize, text: &str, data: NodeData, children: Vec<MdNode>) -> MdNode {
    MdNode {
        kind,
        start,
        end,
        facts: no_facts(),
        text: chars(text),
        data,
        children,
    }
}

/// The tree the Markdown parser makes of `#  Title` (with `title_start`
/// where the heading's text starts).
fn heading_file(len: usize, heading_end: usize, title_start: usize, title: &str) -> MdNode {
    let text = node(NodeKind::Text, title_start, heading_end, title, NodeData::Text(vec![]), vec![]);
    let heading = node(NodeKind::Heading, 0, heading_end, "", NodeData::Heading(1), vec![text]);
    node(NodeKind::SourceFile, 0, len, "", NodeData::Plain, vec![heading])
}

#[test]
fn strips_bom() {
    for input_text in ["\u{FEFF}#  Title", "\u{FEFF}# Title\n"] {
        let mut run = format_text(input_text);
        let parsed_text = expect_parse(run.next(FormatEvent::Begin));
        assert_eq!(parsed_text, input_text.trim_start_matches('\u{FEFF}'));
        let text = match run.next(FormatEvent::Parsed(ParseOutcome::SourceFile)) {
            FormatAction::Print(t) => t,
            _ => panic!("expected a print action"),
        };
        assert_eq!(string(&text), parsed_text);
        // the heading as the Markdown parser finds it in the text
        let heading_end = if parsed_text.starts_with("#  ") { 8 } else { 7 };
        let tree = heading_file(text.len(), heading_end, heading_end - 5, "Title");
        let items = generate(&tree, &text, &config(), &chars("dprint-ignore"));
        let settings = config_to_print_options(input_text, 80, NewLineKind::LineFeed);
        let printed = print_file_checked(&items, &settings).unwrap();
        let result = expect_finish(run.next(FormatEvent::Printed(chars(&printed))));
        assert_eq!(result, Some("# Title\n".to_string()));
    }
}

#[test]
fn mdx_embedded_formatting_preserves_original_newline_kind() {
    let input_text = "import {A,B} from \"x\"\r\n\r\n#  Hello\r\n";
    let mut run = format_text_for_file_path("file.mdx", input_text);
    assert!(run.mode == FormatMode::Mdx);
    let original = match run.next(FormatEvent::Begin) {
        FormatAction::FormatEmbedded(t) => t,
        _ => panic!("expected the embedded formatter to run"),
    };
    // The top-level blocks of the text: the import paragraph and the heading.
    let nodes = vec![
        BlockNode { kind: BlockKind::Paragraph, range: 0..21 },
        BlockNode { kind: BlockKind::Other, range: 25..33 },
    ];
    let candidates = mdx_format_candidates(&nodes, &original);
    assert_eq!(candidates.len(), 1);
    assert!(candidates[0].kind == MdxEmbeddedBlockKind::Esm);
    let mut outcomes = Vec::new();
    for block in &candidates {
        let tag = "tsx";
        let block_text = string(&original[block.range.clone()]);
        let formatted = if tag == "tsx" { Some(block_text.replace("{A,B}", "{ A, B }")) } else { None };
        outcomes.push(formatted.map(|t| {
            let text = chars(&t);
            let trimmed = trim_end_exec(&text).len();
            FormattedBlock { text, parsed: Some(vec![BlockNode { kind: BlockKind::Paragraph, range: 0..trimmed }]) }
        }));
    }
    let embedded = format_mdx_embedded_blocks(&original, &candidates, &outcomes);
    assert_eq!(embedded.as_ref().map(|t| string(t)), Some("import { A, B } from \"x\"\r\n\r\n#  Hello\r\n".to_string()));
    let parsed_text = expect_parse(run.next(FormatEvent::Embedded(embedded)));
    assert_eq!(parsed_text, "import { A, B } from \"x\"\r\n\r\n#  Hello\r\n");
    let text = match run.next(FormatEvent::Parsed(ParseOutcome::SourceFile)) {
        FormatAction::Print(t) => t,
        _ => panic!("expected a print action"),
    };
    // the top-level children of the MDX file: the preserved ESM block kept
    // as it is, and the heading as the Markdown parser finds it
    let esm = node(NodeKind::NotImplemented, 0, 24, "", NodeData::Plain, vec![]);
    let title = node(NodeKind::Text, 31, 36, "Hello", NodeData::Text(vec![]), vec![]);
    let heading = node(NodeKind::Heading, 28, 36, "", NodeData::Heading(1), vec![title]);
    let tree = node(NodeKind::SourceFile, 0, text.len(), "", NodeData::Plain, vec![esm, heading]);
    let items = generate(&tree, &text, &config(), &chars("dprint-ignore"));
    let settings = run.print_settings(80, NewLineKind::Auto);
    assert_eq!(settings.new_line_text, "\r\n");
    let printed = print_file_checked(&items, &settings).unwrap();
    let result = expect_finish(run.next(FormatEvent::Printed(chars(&printed))));
    assert_eq!(result, Some("import { A, B } from \"x\"\r\n\r\n# Hello\r\n".to_string()));
}

#[test]
fn unchanged_output_gives_nothing() {
    let mut run = format_text("# Title\n");
    expect_parse(run.next(FormatEvent::Begin));
    run.next(FormatEvent::Parsed(ParseOutcome::SourceFile));
    assert_eq!(expect_finish(run.next(FormatEvent::Printed(chars("# Title\n")))), None);
    assert!(run.stage == FormatStage::Finished);
}

#[test]
fn ignored_file_gives_nothing() {
    let mut run = format_text("<!-- dprint-ignore-file -->\n#  A\n");
    expect_parse(run.next(FormatEvent::Begin));
    assert_eq!(expect_finish(run.next(FormatEvent::Parsed(ParseOutcome::IgnoreFile))), None);
}

#[test]
fn failed_mdx_parse_retries_original_text() {
    let mut run = format_text_for_file_path("doc.MDX", "import {A} from \"a\"\n");
    assert!(run.mode == FormatMode::Mdx);
    run.next(FormatEvent::Begin);
    let first = expect_parse(run.next(FormatEvent::Embedded(Some(chars("import { A } from \"a\"")))));
    assert_eq!(first, "import { A } from \"a\"");
    let retry = expect_parse(run.next(FormatEvent::Parsed(failed(0, 1, "bad"))));
    assert_eq!(retry, "import {A} from \"a\"\n");
    match run.next(FormatEvent::Parsed(failed(0, 6, "bad"))) {
        FormatAction::Fail(m) => assert_eq!(m, "Line 1, column 1: bad\n\n  import {A} from \n  ~~~~~~"),
        _ => panic!("expected the run to fail"),
    }
}

fn failed(start: usize, end: usize, message: &str) -> ParseOutcome {
    ParseOutcome::Failed(ParseError { start, end, message: message.to_string() })
}

#[test]
fn failed_markdown_parse_fails() {
    let mut run = format_text("text");
    run.next(FormatEvent::Begin);
    match run.next(FormatEvent::Parsed(failed(0, 4, "bad"))) {
        FormatAction::Fail(m) => assert_eq!(m, "Line 1, column 1: bad\n\n  text\n  ~~~~"),
        _ => panic!("expected the run to fail"),
    }
    let mut run = format_text("\u{FEFF}é x");
    run.next(FormatEvent::Begin);
    match run.next(FormatEvent::Parsed(failed(2, 3, "bad"))) {
        FormatAction::Fail(m) => assert_eq!(m, "Line 1, column 3: bad\n\n  é x\n    ~"),
        _ => panic!("expected the run to fail"),
    }
}

#[test]
fn markdown_paths_use_markdown_mode() {
    assert!(format_text_for_file_path("readme.md", "x").mode == FormatMode::Markdown);
    assert!(format_text_for_file_path("notes", "x").mode == FormatMode::Markdown);
    assert!(format_text_for_file_path("dir/page.mdx", "x").mode == FormatMode::Mdx);
    assert!(format_text_for_file_path("/home/u/docs/Page.Mdx", "x").mode == FormatMode::Mdx);
    assert!(format_text_for_file_path("../a.mdx/b.md", "x").mode == FormatMode::Markdown);
    assert!(format_text_for_file_path("docs/v1.2/notes", "x").mode == FormatMode::Markdown);
    assert!(format_text_for_file_path(".mdx", "x").mode == FormatMode::Markdown);
    assert!(format_text_for_file_path("mdx", "x").mode == FormatMode::Markdown);
    assert!(format_text_for_file_path("dir/.x.mdx", "x").mode == FormatMode::Mdx);
    assert!(format_text_for_file_path("a.mdx.md", "x").mode == FormatMode::Markdown);
    assert!(FormatMode::from_extension(Some(&chars("mDx"))) == FormatMode::Mdx);
    assert!(FormatMode::from_extension(Some(&chars("mdxx"))) == FormatMode::Markdown);
    assert!(FormatMode::from_extension(None) == FormatMode::Markdown);
}

#[test]
fn strip_bom_removes_one_mark() {
    assert_eq!(string(strip_bom(&chars("\u{FEFF}\u{FEFF}a"))), "\u{FEFF}a");
    assert_eq!(string(strip_bom(&chars("a\u{FEFF}"))), "a\u{FEFF}");
    assert_eq!(string(strip_bom(&chars(""))), "");
}

#[test]
fn newline_kind_is_resolved_from_the_last_newline() {
    assert_eq!(config_to_print_options("a\r\nb\nc", 80, NewLineKind::Auto).new_line_text, "\n");
    assert_eq!(config_to_print_options("a\nb\r\nc", 80, NewLineKind::Auto).new_line_text, "\r\n");
    assert_eq!(config_to_print_options("abc", 80, NewLineKind::Auto).new_line_text, "\n");
    assert_eq!(config_to_print_options("\n", 80, NewLineKind::Auto).new_line_text, "\n");
    assert_eq!(config_to_print_options("a\nb", 80, NewLineKind::CarriageReturnLineFeed).new_line_text, "\r\n");
    let s = config_to_print_options("a\r\n", 100, NewLineKind::LineFeed);
    assert_eq!(s.new_line_text, "\n");
    assert_eq!(s.indent_width, 1);
    assert_eq!(s.max_width, 100);
    assert!(!s.use_tabs);
}

#[test]
fn changed_text_drops_unchanged_output() {
    assert_eq!(changed_text(&chars("a"), Some(chars("a"))), None);
    assert_eq!(changed_text(&chars("a"), Some(chars("b"))), Some(chars("b")));
    assert_eq!(changed_text(&chars("a"), None), None);
}
