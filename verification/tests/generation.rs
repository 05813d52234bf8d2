use dprint_plugin_markdown::gen_block::{
    gen_block_quote, gen_block_quote_prefix, gen_divider_row, gen_heading_prefix, gen_heading_underline, gen_heading, gen_list, gen_table,
    gen_list_item_marker, gen_metadata_block, gen_table_row, get_column_count, is_all_ones_list,
    is_setext_heading, measure_longest_line_width, ColumnAlignment, HeadingKind, MetadataBlockKind,
    QuoteItem, QuoteStep, TableFormat, gen_aligned_table,
};
use dprint_plugin_markdown::gen_code::{
    code_block_language, gen_code, gen_code_block, get_backtick_count, get_code_block_start_pos,
    get_code_text,
};
use dprint_plugin_markdown::chars::utf8_byte_len;
use dprint_plugin_markdown::print::{PrintItem, PrintSignal};
use dprint_plugin_markdown::gen_inline::{
    gen_footnote_definition_label, gen_footnote_reference, gen_inline_image, gen_inline_link_single_line,
    gen_link_destination, gen_link_reference, gen_reference_image, gen_reference_link_label,
    gen_task_list_marker, gen_text_decoration_delimiter, gen_word_separator,
    get_newline_wrapping_based_on_config, get_space_or_newline_based_on_config, is_callout_text,
    keep_asterisk, text_words, DecorationChar, Separator, TextDecorationKind, TextWrap,
};
use dprint_plugin_markdown::gen_nodes::{
    gen_gap, gen_range, gen_task_list_marker_children, ignored_region, is_alternate_list, ChildInfo,
    FollowingNode, GapFacts, NodeKind,
};

fn c(s: &str) -> Vec<char> {
    s.chars().collect()
}

fn text(t: &str) -> PrintItem {
    PrintItem::Text(t.chars().collect())
}

fn s(v: &[char]) -> String {
    v.iter().collect()
}

#[test]
fn backtick_fences() {
    assert_eq!(get_backtick_count(&c("a``b```c")), 4);
    assert_eq!(get_backtick_count(&c("")), 3);
    assert_eq!(get_backtick_count(&c("`")), 3);
    assert_eq!(get_backtick_count(&c("````` x")), 6);
}

#[test]
fn code_block_text_extraction() {
    assert_eq!(get_code_block_start_pos(&c("  \n  \n code")), 6);
    assert_eq!(get_code_block_start_pos(&c("code")), 0);
    assert_eq!(get_code_block_start_pos(&c(" \n")), 2);
    assert_eq!(s(get_code_text(&c("\n\n  let x = 1;  \n\n"))), "  let x = 1;");
    assert_eq!(s(get_code_text(&c("  \n "))), "");
    assert_eq!(s(code_block_language(&c("rust,ignore"))), "rust");
    assert_eq!(s(code_block_language(&c("js title=\"a\""))), "js");
    assert_eq!(s(code_block_language(&c("ts"))), "ts");
}

#[test]
fn code_block_layout() {
    let (text, indent) = gen_code_block(&c("let x;"), Some(&c("rust")), true);
    assert_eq!(s(&text), "```rust\nlet x;\n```");
    assert_eq!(indent, 0);
    let (text, _) = gen_code_block(&c(""), None, true);
    assert_eq!(s(&text), "```\n```");
    let (text, _) = gen_code_block(&c("a```b"), None, true);
    assert_eq!(s(&text), "````\na```b\n````");
    let (text, indent) = gen_code_block(&c("x\ny"), None, false);
    assert_eq!(s(&text), "x\ny");
    assert_eq!(indent, 4);
}

#[test]
fn code_spans() {
    assert_eq!(s(&gen_code(&c(" a "))), "`a`");
    assert_eq!(s(&gen_code(&c("a`b"))), "``a`b``");
    assert_eq!(s(&gen_code(&c("`a"))), "`` `a ``");
    assert_eq!(s(&gen_code(&c("a`"))), "`` a` ``");
}

#[test]
fn callouts() {
    assert!(is_callout_text(&c("[!NOTE]")));
    assert!(!is_callout_text(&c("[!note]")));
    assert!(is_callout_text(&c("[!]")));
    assert!(!is_callout_text(&c("[NOTE]")));
    assert!(!is_callout_text(&c("[!NOTE")));
}

#[test]
fn utf8_lengths_and_link_text() {
    assert_eq!(utf8_byte_len(&c("aé中😀")), 10);
    assert_eq!(utf8_byte_len(&c("")), 0);
    assert_eq!(utf8_byte_len(&c("aé中😀")), "aé中😀".len());
    assert!(gen_inline_link_single_line(&c("abc"), 10));
    assert!(!gen_inline_link_single_line(&c("abcde"), 10));
    assert!(!gen_inline_link_single_line(&c("éé"), 8));
}

#[test]
fn links_images_footnotes() {
    assert_eq!(s(&gen_link_destination(&c(" url "), Some(&c(" t ")))), "(url \"t\")");
    assert_eq!(s(&gen_link_destination(&c("url"), None)), "(url)");
    assert_eq!(s(&gen_reference_link_label(&c(" ref "))), "[ref]");
    assert_eq!(s(&gen_footnote_reference(&c(" 1 "))), "[^1]");
    assert_eq!(s(&gen_footnote_definition_label(&c("note"))), "[^note]: ");
    assert_eq!(s(&gen_link_reference(&c(" a "), &c(" http://x "), None)), "[a]: http://x");
    assert_eq!(s(&gen_link_reference(&c("a"), &c("http://x"), Some(&c("T")))), "[a]: http://x \"T\"");
    assert_eq!(s(&gen_inline_image(&c(" alt "), &c("u"), Some(&c("t")))), "![alt](u \"t\")");
    assert_eq!(s(&gen_reference_image(&c("a"), &c(" b "))), "![a][b]");
    assert_eq!(s(&gen_task_list_marker(true)), "[x]");
    assert_eq!(s(&gen_task_list_marker(false)), "[ ]");
}

#[test]
fn words_and_separators() {
    let words = text_words(&c("a b\n c"), true);
    let got: Vec<(String, bool)> = words.iter().map(|w| (s(&w.text), w.after_newline)).collect();
    assert_eq!(got, vec![("a".to_string(), false), ("b".to_string(), false), ("c".to_string(), true)]);
    let words = text_words(&c("a b\n c"), false);
    assert!(words.iter().all(|w| !w.after_newline));
    assert!(text_words(&c(" \n "), true).is_empty());
    assert!(get_space_or_newline_based_on_config(TextWrap::Always, false) == Separator::SpaceOrNewLine);
    assert!(get_space_or_newline_based_on_config(TextWrap::Always, true) == Separator::Space);
    assert!(get_space_or_newline_based_on_config(TextWrap::Maintain, false) == Separator::Space);
    assert!(get_newline_wrapping_based_on_config(TextWrap::Maintain, false) == Separator::NewLine);
    assert!(get_newline_wrapping_based_on_config(TextWrap::Maintain, true) == Separator::SpaceIfNoNewLinesElseNewLine);
    assert!(get_newline_wrapping_based_on_config(TextWrap::Never, false) == Separator::Space);
    assert!(gen_word_separator(true, false, true, TextWrap::Always, false).is_none());
    assert!(gen_word_separator(false, true, true, TextWrap::Always, false) == Some(Separator::Space));
    assert!(gen_word_separator(false, false, true, TextWrap::Always, false) == Some(Separator::NewLine));
    assert!(gen_word_separator(false, false, false, TextWrap::Always, false) == Some(Separator::SpaceOrNewLine));
}

#[test]
fn decorations() {
    assert!(keep_asterisk(&c("*a*b"), 3));
    assert!(!keep_asterisk(&c("*a* b"), 3));
    assert!(!keep_asterisk(&c("_a_b"), 3));
    assert!(!keep_asterisk(&c("*a*"), 3));
    assert!(keep_asterisk(&c("*é*ü"), 3));
    let d = |kind, text: &str, end| s(&gen_text_decoration_delimiter(kind, DecorationChar::Underscores, DecorationChar::Underscores, &c(text), end));
    assert_eq!(d(TextDecorationKind::Emphasis, "*a*b", 3), "*");
    assert_eq!(d(TextDecorationKind::Emphasis, "*a* b", 3), "_");
    assert_eq!(d(TextDecorationKind::Strong, "**a**b", 5), "**");
    assert_eq!(d(TextDecorationKind::Strong, "**a**", 5), "__");
    assert_eq!(d(TextDecorationKind::Strikethrough, "~~a~~", 5), "~~");
    assert_eq!(s(&gen_text_decoration_delimiter(TextDecorationKind::Strong, DecorationChar::Asterisks, DecorationChar::Asterisks, &c(""), 0)), "**");
}

#[test]
fn headings() {
    assert_eq!(s(&gen_heading_prefix(3)), "### ");
    assert_eq!(s(&gen_heading_underline(1, 5)), "=====");
    assert_eq!(s(&gen_heading_underline(2, 3)), "---");
    assert!(is_setext_heading(2, HeadingKind::Setext));
    assert!(!is_setext_heading(3, HeadingKind::Setext));
    assert!(!is_setext_heading(1, HeadingKind::Atx));
    assert_eq!(measure_longest_line_width(&c("ab\n中文字\r\nx")), 6);
    assert_eq!(measure_longest_line_width(&c("")), 0);
}

#[test]
fn list_markers() {
    assert_eq!(s(&gen_list_item_marker(Some(3), 2, false, false, &c("-"))), "5.");
    assert_eq!(s(&gen_list_item_marker(Some(3), 2, false, true, &c("-"))), "1.");
    assert_eq!(s(&gen_list_item_marker(Some(3), 2, true, false, &c("-"))), "5)");
    assert_eq!(s(&gen_list_item_marker(None, 7, false, false, &c("*"))), "*");
    assert_eq!(s(&gen_list_item_marker(Some(u64::MAX - 1), 1, false, false, &c("-"))), "18446744073709551615.");
    assert_eq!(s(&gen_list_item_marker(Some(0), 0, false, false, &c("-"))), "0.");
    assert!(is_all_ones_list(2, Some(1), &c(" 1. b")));
    assert!(is_all_ones_list(3, Some(1), &c("1) b")));
    assert!(!is_all_ones_list(1, Some(1), &c("1. b")));
    assert!(!is_all_ones_list(2, Some(2), &c("1. b")));
    assert!(!is_all_ones_list(2, None, &c("1. b")));
    assert!(!is_all_ones_list(2, Some(1), &c("2. b")));
}

#[test]
fn tables() {
    assert_eq!(s(&gen_divider_row(3, &[ColumnAlignment::Left, ColumnAlignment::Center])), "| :--- | :---: | --- |");
    assert_eq!(s(&gen_divider_row(1, &[ColumnAlignment::Right])), "| ---: |");
    assert_eq!(s(&gen_divider_row(0, &[])), "");
    assert_eq!(s(&gen_table_row(&vec![c("a"), c(""), c("b c")])), "| a |  | b c |");
    assert_eq!(s(&gen_table_row(&vec![])), "");
    assert_eq!(get_column_count(2, &[1, 3], 2), 3);
    assert_eq!(get_column_count(2, &[], 4), 4);
    assert_eq!(get_column_count(0, &[], 0), 0);
}

#[test]
fn block_quotes_and_metadata() {
    assert_eq!(s(&gen_block_quote_prefix(2, true)), ">> ");
    assert_eq!(s(&gen_block_quote_prefix(1, false)), ">");
    let yaml = gen_metadata_block(MetadataBlockKind::YamlStyle, &c("a: 1\n"), Some(&c("a: 2\n\n")));
    assert_eq!(yaml, vec![text("---"), PrintItem::Signal(PrintSignal::NewLine), text("a: 2"), PrintItem::Signal(PrintSignal::NewLine), text("---")]);
    // each line of the body loses its trailing white space
    let yaml = gen_metadata_block(MetadataBlockKind::YamlStyle, &c("a \nb\n"), None);
    assert_eq!(
        yaml,
        vec![
            text("---"),
            PrintItem::Signal(PrintSignal::NewLine),
            text("a"),
            PrintItem::Signal(PrintSignal::NewLine),
            text("b"),
            PrintItem::Signal(PrintSignal::NewLine),
            text("---"),
        ]
    );
    // TOML is taken from the formatter too, printed as it is
    let toml = gen_metadata_block(MetadataBlockKind::PlusesStyle, &c("a = 1\n"), Some(&c("b = 2  \nc = 3\n")));
    assert_eq!(
        toml,
        vec![
            text("+++"),
            PrintItem::Signal(PrintSignal::NewLine),
            PrintItem::Signal(PrintSignal::StartIgnoringIndent),
            text("b = 2"),
            PrintItem::Signal(PrintSignal::NewLine),
            text("c = 3"),
            PrintItem::Signal(PrintSignal::FinishIgnoringIndent),
            PrintItem::Signal(PrintSignal::NewLine),
            text("+++"),
        ]
    );
    let toml = gen_metadata_block(MetadataBlockKind::PlusesStyle, &c("a = 1 \n"), None);
    assert_eq!(toml, vec![text("+++"), PrintItem::Signal(PrintSignal::NewLine), text("a = 1"), PrintItem::Signal(PrintSignal::NewLine), text("+++")]);
}

fn facts() -> GapFacts {
    GapFacts {
        new_line_count: 0,
        in_list: false,
        has_leading_blank_line: false,
        in_block_quote: false,
        text_wrap_disabled: false,
        text_wrap: TextWrap::Always,
        has_preceding_space: true,
        last_ends_with_punctuation: false,
        starts_with_punctuation: false,
        starts_with_list_word: false,
    }
}

#[test]
fn gaps_between_nodes() {
    assert_eq!(gen_gap(NodeKind::Paragraph, &[], NodeKind::Paragraph, &facts()), vec![Separator::NewLine, Separator::NewLine]);
    let in_list = GapFacts { in_list: true, ..facts() };
    assert_eq!(gen_gap(NodeKind::Paragraph, &[], NodeKind::List, &in_list), vec![Separator::NewLine]);
    let in_list_blank = GapFacts { in_list: true, has_leading_blank_line: true, ..facts() };
    assert_eq!(gen_gap(NodeKind::Text, &[], NodeKind::List, &in_list_blank), vec![Separator::NewLine, Separator::NewLine]);
    assert_eq!(gen_gap(NodeKind::Text, &c("a"), NodeKind::Text, &facts()), vec![Separator::SpaceOrNewLine]);
    let maintain_break = GapFacts { new_line_count: 1, text_wrap: TextWrap::Maintain, ..facts() };
    assert_eq!(gen_gap(NodeKind::Text, &c("a"), NodeKind::Code, &maintain_break), vec![Separator::NewLine]);
    let callout = GapFacts { new_line_count: 1, in_block_quote: true, text_wrap: TextWrap::Never, ..facts() };
    assert_eq!(gen_gap(NodeKind::Text, &c("[!NOTE]"), NodeKind::Text, &callout), vec![Separator::NewLine]);
    assert_eq!(gen_gap(NodeKind::Text, &c("plain"), NodeKind::Text, &callout), vec![Separator::Space]);
    let two = GapFacts { new_line_count: 2, ..facts() };
    assert_eq!(gen_gap(NodeKind::Code, &[], NodeKind::Text, &two), vec![Separator::NewLine, Separator::NewLine]);
    assert_eq!(gen_gap(NodeKind::Text, &[], NodeKind::HardBreak, &facts()), Vec::<Separator>::new());
    assert_eq!(gen_gap(NodeKind::LinkReference, &[], NodeKind::LinkReference, &facts()), vec![Separator::NewLine]);
    assert_eq!(gen_gap(NodeKind::LinkReference, &[], NodeKind::Text, &facts()), Vec::<Separator>::new());
    let tight = GapFacts { has_preceding_space: false, ..facts() };
    assert_eq!(gen_gap(NodeKind::Html, &[], NodeKind::Text, &tight), Vec::<Separator>::new());
    let punct = GapFacts { has_preceding_space: false, starts_with_punctuation: true, ..facts() };
    assert_eq!(gen_gap(NodeKind::Text, &c("a"), NodeKind::Code, &punct), Vec::<Separator>::new());
    assert_eq!(gen_gap(NodeKind::Code, &[], NodeKind::FootnoteReference, &tight), Vec::<Separator>::new());
    let list_word = GapFacts { starts_with_list_word: true, ..facts() };
    assert_eq!(gen_gap(NodeKind::Text, &c("a"), NodeKind::Text, &list_word), vec![Separator::Space]);
}

#[test]
fn alternate_lists_and_ignored_regions() {
    assert!(is_alternate_list(Some((NodeKind::List, true)), NodeKind::List, true));
    assert!(!is_alternate_list(Some((NodeKind::List, true)), NodeKind::List, false));
    assert!(!is_alternate_list(Some((NodeKind::Paragraph, true)), NodeKind::List, true));
    assert!(!is_alternate_list(None, NodeKind::List, true));
    let following = [
        FollowingNode { start: 10, end: 20, is_end_comment: false },
        FollowingNode { start: 22, end: 40, is_end_comment: true },
        FollowingNode { start: 42, end: 50, is_end_comment: false },
    ];
    assert_eq!(ignored_region(5, &following), (22, Some(1)));
    assert_eq!(ignored_region(5, &following[..1]), (20, None));
    assert_eq!(ignored_region(5, &[]), (5, None));
}

#[test]
fn task_marker_children_and_ranges() {
    let children = [
        ChildInfo { kind: NodeKind::Text, has_leading_blank_line: false },
        ChildInfo { kind: NodeKind::List, has_leading_blank_line: true },
    ];
    let layout = gen_task_list_marker_children(&children, true);
    assert_eq!(layout.marker_indent, 4);
    assert_eq!(layout.indented_end, 1);
    assert_eq!(layout.separators, vec![Separator::NewLine, Separator::NewLine]);
    let layout = gen_task_list_marker_children(&children[..1], false);
    assert_eq!(layout.marker_indent, 0);
    assert_eq!(layout.indented_end, 1);
    assert!(layout.separators.is_empty());
    let layout = gen_task_list_marker_children(&children[1..], true);
    assert_eq!(layout.indented_end, 0);
    assert!(layout.separators.is_empty());
    assert_eq!(gen_range(&c("ab <b>x</b>  \n"), 3, 14), vec![text(""), text("<b>x</b>")]);
    assert!(gen_range(&c("a   "), 1, 4).is_empty());
    // every line loses its trailing white space
    assert_eq!(
        gen_range(&c("<div>  \n</div>"), 0, 14),
        vec![
            text(""),
            PrintItem::Signal(PrintSignal::StartIgnoringIndent),
            text("<div>"),
            PrintItem::Signal(PrintSignal::NewLine),
            text("</div>"),
            PrintItem::Signal(PrintSignal::FinishIgnoringIndent),
        ]
    );
}

#[test]
fn list_item_plans() {
    let plans = gen_list(Some(9), &[false, true, false], false, false, &c("-"));
    let got: Vec<(Vec<Separator>, String, u32)> = plans.into_iter().map(|p| (p.separators, s(&p.marker), p.indent)).collect();
    assert_eq!(
        got,
        vec![
            (vec![], "9.".to_string(), 3),
            (vec![Separator::NewLine, Separator::NewLine], "10.".to_string(), 4),
            (vec![Separator::NewLine], "11.".to_string(), 4),
        ]
    );
    let plans = gen_list(None, &[false, false], true, false, &c("*"));
    assert_eq!(s(&plans[1].marker), "*");
    assert_eq!(plans[1].indent, 2);
}

#[test]
fn whole_tables() {
    let header = vec![c("a"), c("b")];
    let rows = vec![vec![c("1"), c("2"), c("3")], vec![c("x")]];
    let t = gen_table(&header, &rows, &[ColumnAlignment::Right], TableFormat::Compact);
    assert_eq!(s(&t), "| a | b |\n| ---: | --- | --- |\n| 1 | 2 | 3 |\n| x |");
    let t = gen_table(&vec![c("h")], &vec![], &[], TableFormat::Compact);
    assert_eq!(s(&t), "| h |\n| --- |");
}

#[test]
fn aligned_tables_pad_every_column() {
    let header = vec![c("a"), c("long")];
    let rows = vec![vec![c("bbbb"), c("c")]];
    let t = gen_table(&header, &rows, &[], TableFormat::Aligned);
    assert_eq!(s(&t), "| a    | long |\n| ---- | ---- |\n| bbbb | c    |");
    let t = gen_table(
        &vec![c("x"), c("y"), c("z")],
        &vec![vec![c("1"), c("22222")]],
        &[ColumnAlignment::Right, ColumnAlignment::Center, ColumnAlignment::Left],
    TableFormat::Aligned,
    );
    assert_eq!(s(&t), "|   x |   y   | z   |\n| --: | :---: | :-- |\n|   1 | 22222 |     |");
    let lines = gen_aligned_table(&vec![c("é")], &vec![], &[]);
    assert_eq!(lines.iter().map(|l| s(l)).collect::<Vec<_>>(), vec!["| é   |", "| --- |"]);
}

#[test]
fn whole_headings() {
    assert_eq!(s(&gen_heading(2, HeadingKind::Atx, &c("Title"), &c("Title"))), "## Title");
    assert_eq!(s(&gen_heading(1, HeadingKind::Setext, &c("A long title"), &c("A long\ntitle"))), "A long title\n======");
    assert_eq!(s(&gen_heading(2, HeadingKind::Setext, &c("中文"), &c("中文"))), "中文\n----");
    assert_eq!(s(&gen_heading(3, HeadingKind::Setext, &c("x"), &c("x"))), "### x");
}

#[test]
fn block_quote_steps_prefix_text_and_line_breaks() {
    let items = [
        QuoteItem::Text,
        QuoteItem::NewLine,
        QuoteItem::StartIndent,
        QuoteItem::Text,
        QuoteItem::FinishIndent,
        QuoteItem::Other,
    ];
    let steps = gen_block_quote(&items, 2);
    assert_eq!(
        steps,
        vec![
            QuoteStep::TextPrefix(0, c(">> ")),
            QuoteStep::Item(0),
            QuoteStep::NewLinePrefix(0, c(">>")),
            QuoteStep::Item(1),
            QuoteStep::Item(2),
            QuoteStep::TextPrefix(1, c(">> ")),
            QuoteStep::Item(3),
            QuoteStep::Item(4),
            QuoteStep::Item(5),
        ]
    );
}
