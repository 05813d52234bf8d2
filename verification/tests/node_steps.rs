use dprint_plugin_markdown::gen_inline::{Separator, TextWrap};
use dprint_plugin_markdown::gen_nodes::{gen_item, gen_nodes, gen_paragraph, GapFacts, NodeInfo, NodeKind, NodeStep};

fn facts() -> GapFacts {
    GapFacts {
        new_line_count: 0,
        in_list: false,
        has_leading_blank_line: false,
        in_block_quote: false,
        text_wrap_disabled: false,
        text_wrap: TextWrap::Maintain,
        has_preceding_space: true,
        last_ends_with_punctuation: false,
        starts_with_punctuation: false,
        starts_with_list_word: false,
    }
}

fn info(kind: NodeKind, start: usize, end: usize) -> NodeInfo {
    NodeInfo {
        kind,
        ordered_list: false,
        start,
        end,
        text: Vec::new(),
        facts: facts(),
        is_ignore: false,
        is_ignore_start: false,
        is_ignore_end: false,
    }
}

#[test]
fn soft_breaks_are_skipped() {
    let mut b = info(NodeKind::Text, 2, 3);
    b.facts.new_line_count = 1;
    let nodes = vec![info(NodeKind::Text, 0, 1), info(NodeKind::SoftBreak, 1, 2), b];
    assert_eq!(
        gen_nodes(&nodes),
        vec![NodeStep::Generate(0), NodeStep::Separators(vec![Separator::NewLine]), NodeStep::Generate(2)]
    );
    assert!(gen_nodes(&[]).is_empty());
    assert!(gen_nodes(&[info(NodeKind::SoftBreak, 0, 1)]).is_empty());
}

#[test]
fn lists_of_the_same_kind_alternate() {
    let mut l1 = info(NodeKind::List, 0, 5);
    l1.ordered_list = true;
    let mut l2 = info(NodeKind::List, 7, 12);
    l2.ordered_list = true;
    let mut l3 = info(NodeKind::List, 14, 20);
    l3.ordered_list = true;
    let nodes = vec![l1, l2, l3, info(NodeKind::Paragraph, 22, 30)];
    let blank = vec![Separator::NewLine, Separator::NewLine];
    assert_eq!(
        gen_nodes(&nodes),
        vec![
            NodeStep::Generate(0),
            NodeStep::Separators(blank.clone()),
            NodeStep::GenerateAlternateList(1),
            NodeStep::Separators(blank.clone()),
            NodeStep::Generate(2),
            NodeStep::Separators(blank),
            NodeStep::Generate(3),
        ]
    );
}

#[test]
fn ignore_comment_keeps_next_node() {
    let mut comment = info(NodeKind::Html, 0, 22);
    comment.is_ignore = true;
    let mut kept = info(NodeKind::Paragraph, 23, 30);
    kept.facts.has_leading_blank_line = true;
    let nodes = vec![comment, kept, info(NodeKind::Paragraph, 32, 40)];
    assert_eq!(
        gen_nodes(&nodes),
        vec![
            NodeStep::Generate(0),
            NodeStep::NewLine,
            NodeStep::NewLine,
            NodeStep::RawNode(1),
            NodeStep::Separators(vec![Separator::NewLine, Separator::NewLine]),
            NodeStep::Generate(2),
        ]
    );
}

#[test]
fn ignore_region_up_to_end_comment() {
    let mut start = info(NodeKind::Html, 0, 10);
    start.is_ignore_start = true;
    let mut end = info(NodeKind::Html, 21, 30);
    end.is_ignore_end = true;
    let nodes = vec![start, info(NodeKind::Paragraph, 11, 20), end, info(NodeKind::Text, 31, 35)];
    assert_eq!(
        gen_nodes(&nodes),
        vec![
            NodeStep::Generate(0),
            NodeStep::RawText(10, 21, false),
            NodeStep::Generate(2),
            NodeStep::Separators(vec![Separator::Space]),
            NodeStep::Generate(3),
        ]
    );
    let mut open = info(NodeKind::Html, 0, 10);
    open.is_ignore_start = true;
    let nodes = vec![open, info(NodeKind::Paragraph, 11, 20), info(NodeKind::SoftBreak, 20, 21)];
    assert_eq!(gen_nodes(&nodes), vec![NodeStep::Generate(0), NodeStep::RawText(10, 20, true)]);
}

#[test]
fn list_item_layout_with_marker_and_sub_lists() {
    let layout = gen_item(Some(true), true, Some(true));
    assert_eq!(layout.marker, Some(vec!['[', 'x', ']']));
    assert!(layout.space_after_marker);
    assert_eq!(layout.sub_list_separators, vec![Separator::NewLine, Separator::NewLine]);

    let layout = gen_item(Some(false), false, Some(false));
    assert_eq!(layout.marker, Some(vec!['[', ' ', ']']));
    assert!(!layout.space_after_marker);
    assert_eq!(layout.sub_list_separators, vec![Separator::NewLine]);

    let layout = gen_item(None, true, None);
    assert_eq!(layout.marker, None);
    assert!(!layout.space_after_marker);
    assert!(layout.sub_list_separators.is_empty());
}

#[test]
fn paragraph_layout_has_no_sub_list_breaks() {
    let layout = gen_paragraph(Some(false), true);
    assert_eq!(layout.marker, Some(vec!['[', ' ', ']']));
    assert!(layout.space_after_marker);
    assert!(layout.sub_list_separators.is_empty());
}

#[test]
fn every_node_is_printed_once_in_order() {
    let mut comment = info(NodeKind::Html, 0, 22);
    comment.is_ignore = true;
    let mut l1 = info(NodeKind::List, 30, 35);
    l1.ordered_list = true;
    let mut l2 = info(NodeKind::List, 37, 40);
    l2.ordered_list = true;
    let mut start = info(NodeKind::Html, 41, 50);
    start.is_ignore_start = true;
    let mut end = info(NodeKind::Html, 60, 70);
    end.is_ignore_end = true;
    let nodes = vec![
        comment,
        info(NodeKind::Paragraph, 23, 29),
        l1,
        info(NodeKind::SoftBreak, 35, 36),
        l2,
        start,
        info(NodeKind::Paragraph, 51, 59),
        end,
        info(NodeKind::Text, 71, 75),
    ];
    let printed: Vec<usize> = gen_nodes(&nodes)
        .iter()
        .filter_map(|s| match s {
            NodeStep::Generate(k) | NodeStep::GenerateAlternateList(k) | NodeStep::RawNode(k) => Some(*k),
            _ => None,
        })
        .collect();
    assert_eq!(printed, vec![0, 1, 2, 4, 5, 7, 8]);
}
