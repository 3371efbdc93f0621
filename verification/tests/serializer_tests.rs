use shiba::events::{Alignment, Event, Span, Tag};
use shiba::serializer::render;

fn b(s: &str) -> Vec<u8> {
    s.as_bytes().to_vec()
}

fn sp(start: usize, end: usize) -> Span {
    Span { start, end }
}

fn rendered(events: Vec<(Event, Span)>, modified: Option<usize>) -> String {
    let (out, ()) = render(&events, modified, (), ());
    String::from_utf8(out).unwrap()
}

fn tree(inner: &str) -> String {
    format!("{{\"kind\":\"parse_tree\",\"tree\":[{}]}}", inner)
}

#[test]
fn empty_stream_renders_empty_tree() {
    assert_eq!(rendered(vec![], None), tree(""));
}

#[test]
fn heading_and_paragraph_with_emphasis() {
    let events = vec![
        (Event::Start(Tag::Heading { level: 1, id: None }), sp(0, 5)),
        (Event::Text(b("Hi")), sp(2, 4)),
        (Event::End(Tag::Heading { level: 1, id: None }), sp(0, 5)),
        (Event::Start(Tag::Paragraph), sp(6, 14)),
        (Event::Text(b("A ")), sp(6, 8)),
        (Event::Start(Tag::Emphasis), sp(8, 11)),
        (Event::Text(b("b")), sp(9, 10)),
        (Event::End(Tag::Emphasis), sp(8, 11)),
        (Event::Text(b(" c")), sp(11, 13)),
        (Event::End(Tag::Paragraph), sp(6, 14)),
    ];
    assert_eq!(
        rendered(events, None),
        tree("{\"t\":\"h\",\"level\":1,\"c\":[\"Hi\"]},{\"t\":\"p\",\"c\":[\"A \",{\"t\":\"em\",\"c\":[\"b\"]},\" c\"]}")
    );
}

#[test]
fn heading_with_slug_id() {
    let events = vec![
        (Event::Start(Tag::Heading { level: 3, id: Some(b("anchor")) }), sp(0, 10)),
        (Event::End(Tag::Heading { level: 3, id: Some(b("anchor")) }), sp(0, 10)),
    ];
    assert_eq!(rendered(events, None), tree("{\"t\":\"h\",\"level\":3,\"id\":\"anchor\",\"c\":[]}"));
}

#[test]
fn unordered_list_has_no_start() {
    let events = vec![
        (Event::Start(Tag::List { start: None }), sp(0, 10)),
        (Event::Start(Tag::Item), sp(0, 4)),
        (Event::End(Tag::Item), sp(0, 4)),
        (Event::End(Tag::List { start: None }), sp(0, 10)),
    ];
    assert_eq!(rendered(events, None), tree("{\"t\":\"ul\",\"c\":[{\"t\":\"li\",\"c\":[]}]}"));
}

#[test]
fn ordered_list_start_one_omits_attribute() {
    let events = vec![
        (Event::Start(Tag::List { start: Some(1) }), sp(0, 10)),
        (Event::End(Tag::List { start: Some(1) }), sp(0, 10)),
    ];
    assert_eq!(rendered(events, None), tree("{\"t\":\"ol\",\"c\":[]}"));
}

#[test]
fn ordered_list_other_start_keeps_attribute() {
    let events = vec![
        (Event::Start(Tag::List { start: Some(7) }), sp(0, 10)),
        (Event::End(Tag::List { start: Some(7) }), sp(0, 10)),
    ];
    assert_eq!(rendered(events, None), tree("{\"t\":\"ol\",\"start\":7,\"c\":[]}"));
}

#[test]
fn table_head_cells_become_th_and_body_cells_td() {
    let t = Tag::Table { alignments: vec![Alignment::Auto, Alignment::Left] };
    let events = vec![
        (Event::Start(t), sp(0, 40)),
        (Event::Start(Tag::TableHead), sp(0, 10)),
        (Event::Start(Tag::TableCell), sp(0, 3)),
        (Event::Text(b("A")), sp(1, 2)),
        (Event::End(Tag::TableCell), sp(0, 3)),
        (Event::Start(Tag::TableCell), sp(3, 6)),
        (Event::Text(b("B")), sp(4, 5)),
        (Event::End(Tag::TableCell), sp(3, 6)),
        (Event::End(Tag::TableHead), sp(0, 10)),
        (Event::Start(Tag::TableRow), sp(10, 20)),
        (Event::Start(Tag::TableCell), sp(10, 13)),
        (Event::Text(b("1")), sp(11, 12)),
        (Event::End(Tag::TableCell), sp(10, 13)),
        (Event::Start(Tag::TableCell), sp(13, 16)),
        (Event::Text(b("2")), sp(14, 15)),
        (Event::End(Tag::TableCell), sp(13, 16)),
        (Event::End(Tag::TableRow), sp(10, 20)),
        (
            Event::End(Tag::Table { alignments: vec![Alignment::Auto, Alignment::Left] }),
            sp(0, 40),
        ),
    ];
    assert_eq!(
        rendered(events, None),
        tree("{\"t\":\"table\",\"align\":[null,\"left\"],\"c\":[{\"t\":\"thead\",\"c\":[{\"t\":\"tr\",\"c\":[{\"t\":\"th\",\"c\":[\"A\"]},{\"t\":\"th\",\"c\":[\"B\"]}]}]},{\"t\":\"tbody\",\"c\":[{\"t\":\"tr\",\"c\":[{\"t\":\"td\",\"c\":[\"1\"]},{\"t\":\"td\",\"c\":[\"2\"]}]}]}]}")
    );
}

#[test]
fn table_alignment_tokens() {
    let aligns = vec![Alignment::Auto, Alignment::Left, Alignment::Center, Alignment::Right];
    let events = vec![
        (Event::Start(Tag::Table { alignments: aligns.clone() }), sp(0, 10)),
        (Event::Start(Tag::TableHead), sp(0, 5)),
        (Event::End(Tag::TableHead), sp(0, 5)),
        (Event::End(Tag::Table { alignments: aligns }), sp(0, 10)),
    ];
    assert_eq!(
        rendered(events, None),
        tree("{\"t\":\"table\",\"align\":[null,\"left\",\"center\",\"right\"],\"c\":[{\"t\":\"thead\",\"c\":[{\"t\":\"tr\",\"c\":[]}]},{\"t\":\"tbody\",\"c\":[]}]}")
    );
}

#[test]
fn footnote_ids_first_occurrence_order() {
    let events = vec![
        (Event::Start(Tag::Paragraph), sp(0, 20)),
        (Event::FootnoteReference(b("a")), sp(0, 4)),
        (Event::FootnoteReference(b("b")), sp(4, 8)),
        (Event::FootnoteReference(b("a")), sp(8, 12)),
        (Event::End(Tag::Paragraph), sp(0, 20)),
        (Event::Start(Tag::FootnoteDefinition { name: b("b") }), sp(20, 30)),
        (Event::End(Tag::FootnoteDefinition { name: b("b") }), sp(20, 30)),
        (Event::Start(Tag::FootnoteDefinition { name: b("a") }), sp(30, 40)),
        (Event::End(Tag::FootnoteDefinition { name: b("a") }), sp(30, 40)),
    ];
    assert_eq!(
        rendered(events, None),
        tree("{\"t\":\"p\",\"c\":[{\"t\":\"fn-ref\",\"id\":1},{\"t\":\"fn-ref\",\"id\":2},{\"t\":\"fn-ref\",\"id\":1}]},{\"t\":\"fn-def\",\"name\":\"b\",\"id\":2,\"c\":[]},{\"t\":\"fn-def\",\"name\":\"a\",\"id\":1,\"c\":[]}")
    );
}

#[test]
fn footnote_definition_empty_name_keeps_id() {
    let events = vec![
        (Event::Start(Tag::FootnoteDefinition { name: b("") }), sp(0, 10)),
        (Event::End(Tag::FootnoteDefinition { name: b("") }), sp(0, 10)),
    ];
    assert_eq!(rendered(events, None), tree("{\"t\":\"fn-def\",\"id\":1,\"c\":[]}"));
}

#[test]
fn email_link_gets_mailto_prefix() {
    let t = Tag::Link { email: true, destination: b("person@example.com"), title: b("") };
    let events = vec![
        (Event::Start(t), sp(0, 20)),
        (Event::Text(b("mail me")), sp(1, 8)),
        (
            Event::End(Tag::Link {
                email: true,
                destination: b("person@example.com"),
                title: b(""),
            }),
            sp(0, 20),
        ),
    ];
    assert_eq!(
        rendered(events, None),
        tree("{\"t\":\"a\",\"href\":\"mailto:person@example.com\",\"c\":[\"mail me\"]}")
    );
}

#[test]
fn link_with_title_keeps_it() {
    let t = Tag::Link { email: false, destination: b("https://example.com"), title: b("T") };
    let events = vec![
        (Event::Start(t), sp(0, 20)),
        (
            Event::End(Tag::Link {
                email: false,
                destination: b("https://example.com"),
                title: b("T"),
            }),
            sp(0, 20),
        ),
    ];
    assert_eq!(
        rendered(events, None),
        tree("{\"t\":\"a\",\"href\":\"https://example.com\",\"title\":\"T\",\"c\":[]}")
    );
}

#[test]
fn image_title_only_when_non_empty() {
    let events = vec![
        (Event::Start(Tag::Image { destination: b("i.png"), title: b("") }), sp(0, 10)),
        (Event::End(Tag::Image { destination: b("i.png"), title: b("") }), sp(0, 10)),
        (Event::Start(Tag::Image { destination: b("j.png"), title: b("J") }), sp(10, 20)),
        (Event::End(Tag::Image { destination: b("j.png"), title: b("J") }), sp(10, 20)),
    ];
    assert_eq!(
        rendered(events, None),
        tree("{\"t\":\"img\",\"src\":\"i.png\",\"c\":[]},{\"t\":\"img\",\"title\":\"J\",\"src\":\"j.png\",\"c\":[]}")
    );
}

#[test]
fn fenced_code_block_takes_first_info_token() {
    let events = vec![
        (Event::Start(Tag::CodeBlock { fence: Some(b("rust ignore")) }), sp(0, 30)),
        (Event::Text(b("let x;\n")), sp(8, 15)),
        (Event::End(Tag::CodeBlock { fence: Some(b("rust ignore")) }), sp(0, 30)),
    ];
    assert_eq!(
        rendered(events, None),
        tree("{\"t\":\"pre\",\"c\":[{\"t\":\"code\",\"lang\":\"rust\",\"c\":[\"let x;\\n\"]}]}")
    );
}

#[test]
fn code_block_empty_info_omits_lang() {
    let events = vec![
        (Event::Start(Tag::CodeBlock { fence: Some(b("")) }), sp(0, 10)),
        (Event::End(Tag::CodeBlock { fence: Some(b("")) }), sp(0, 10)),
        (Event::Start(Tag::CodeBlock { fence: None }), sp(10, 20)),
        (Event::End(Tag::CodeBlock { fence: None }), sp(10, 20)),
    ];
    assert_eq!(
        rendered(events, None),
        tree("{\"t\":\"pre\",\"c\":[{\"t\":\"code\",\"c\":[]}]},{\"t\":\"pre\",\"c\":[{\"t\":\"code\",\"c\":[]}]}")
    );
}

#[test]
fn inline_code_html_and_leaf_markers() {
    let events = vec![
        (Event::Start(Tag::Paragraph), sp(0, 30)),
        (Event::Code(b("x")), sp(0, 3)),
        (Event::Html(b("<div class=\"k\">")), sp(3, 18)),
        (Event::HardBreak, sp(18, 20)),
        (Event::End(Tag::Paragraph), sp(0, 30)),
        (Event::Rule, sp(30, 34)),
        (Event::Start(Tag::Item), sp(34, 40)),
        (Event::TaskListMarker(true), sp(34, 37)),
        (Event::End(Tag::Item), sp(34, 40)),
    ];
    assert_eq!(
        rendered(events, None),
        tree("{\"t\":\"p\",\"c\":[{\"t\":\"code\",\"c\":[\"x\"]},{\"t\":\"html\",\"raw\":\"<div class=\\\"k\\\">\"},{\"t\":\"br\"}]},{\"t\":\"hr\"},{\"t\":\"li\",\"c\":[{\"t\":\"checkbox\",\"checked\":true}]}")
    );
}

#[test]
fn soft_break_is_a_newline_text() {
    let events = vec![
        (Event::Start(Tag::Paragraph), sp(0, 10)),
        (Event::Text(b("a")), sp(0, 1)),
        (Event::SoftBreak, sp(1, 2)),
        (Event::Text(b("b")), sp(2, 3)),
        (Event::End(Tag::Paragraph), sp(0, 10)),
    ];
    assert_eq!(rendered(events, None), tree("{\"t\":\"p\",\"c\":[\"a\",\"\\n\",\"b\"]}"));
}

#[test]
fn blockquote_strong_and_strikethrough() {
    let events = vec![
        (Event::Start(Tag::BlockQuote), sp(0, 20)),
        (Event::Start(Tag::Strong), sp(2, 8)),
        (Event::End(Tag::Strong), sp(2, 8)),
        (Event::Start(Tag::Strikethrough), sp(8, 14)),
        (Event::End(Tag::Strikethrough), sp(8, 14)),
        (Event::End(Tag::BlockQuote), sp(0, 20)),
    ];
    assert_eq!(
        rendered(events, None),
        tree("{\"t\":\"blockquote\",\"c\":[{\"t\":\"strong\",\"c\":[]},{\"t\":\"del\",\"c\":[]}]}")
    );
}

#[test]
fn modified_offset_inside_text_splits_it() {
    let events = vec![
        (Event::Start(Tag::Paragraph), sp(0, 12)),
        (Event::Text(b("abcde")), sp(5, 10)),
        (Event::End(Tag::Paragraph), sp(0, 12)),
    ];
    assert_eq!(
        rendered(events, Some(7)),
        tree("{\"t\":\"p\",\"c\":[\"ab\",{\"t\":\"modified\"},\"cde\"]}")
    );
}

#[test]
fn modified_offset_at_text_end_marks_after() {
    let events = vec![
        (Event::Start(Tag::Paragraph), sp(0, 12)),
        (Event::Text(b("abcde")), sp(5, 10)),
        (Event::End(Tag::Paragraph), sp(0, 12)),
    ];
    assert_eq!(
        rendered(events, Some(10)),
        tree("{\"t\":\"p\",\"c\":[\"abcde\",{\"t\":\"modified\"}]}")
    );
}

#[test]
fn modified_offset_before_text_marks_before() {
    let events = vec![
        (Event::Start(Tag::Paragraph), sp(0, 12)),
        (Event::Text(b("abcde")), sp(5, 10)),
        (Event::End(Tag::Paragraph), sp(0, 12)),
    ];
    assert_eq!(
        rendered(events, Some(3)),
        tree("{\"t\":\"p\",\"c\":[{\"t\":\"modified\"},\"abcde\"]}")
    );
}

#[test]
fn modified_offset_past_all_text_marks_stream_end() {
    let events = vec![
        (Event::Start(Tag::Paragraph), sp(0, 12)),
        (Event::Text(b("abcde")), sp(5, 10)),
        (Event::End(Tag::Paragraph), sp(0, 12)),
    ];
    assert_eq!(
        rendered(events, Some(12)),
        tree("{\"t\":\"p\",\"c\":[\"abcde\"]},{\"t\":\"modified\"}")
    );
}

#[test]
fn modified_offset_consumed_only_once() {
    let events = vec![
        (Event::Start(Tag::Paragraph), sp(0, 20)),
        (Event::Text(b("abcde")), sp(5, 10)),
        (Event::Text(b("fghij")), sp(10, 15)),
        (Event::End(Tag::Paragraph), sp(0, 20)),
    ];
    assert_eq!(
        rendered(events, Some(7)),
        tree("{\"t\":\"p\",\"c\":[\"ab\",{\"t\":\"modified\"},\"cde\",\"fghij\"]}")
    );
}
