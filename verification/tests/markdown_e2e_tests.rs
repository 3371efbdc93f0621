//! End-to-end: real markdown source through the upstream tokenizer,
//! converted to the library's event vocabulary, serialized to the wire
//! message.

use pulldown_cmark::{HeadingLevel, Options, Parser};
use shiba::events::{Alignment, Event, Span, Tag};
use shiba::serializer::render;

fn convert_alignment(a: pulldown_cmark::Alignment) -> Alignment {
    match a {
        pulldown_cmark::Alignment::None => Alignment::Auto,
        pulldown_cmark::Alignment::Left => Alignment::Left,
        pulldown_cmark::Alignment::Center => Alignment::Center,
        pulldown_cmark::Alignment::Right => Alignment::Right,
    }
}

fn convert_tag(t: pulldown_cmark::Tag) -> Tag {
    match t {
        pulldown_cmark::Tag::Paragraph => Tag::Paragraph,
        pulldown_cmark::Tag::Heading(level, id, _) => Tag::Heading {
            level: match level {
                HeadingLevel::H1 => 1,
                HeadingLevel::H2 => 2,
                HeadingLevel::H3 => 3,
                HeadingLevel::H4 => 4,
                HeadingLevel::H5 => 5,
                HeadingLevel::H6 => 6,
            },
            id: id.map(|s| s.as_bytes().to_vec()),
        },
        pulldown_cmark::Tag::Table(aligns) => {
            Tag::Table { alignments: aligns.into_iter().map(convert_alignment).collect() }
        }
        pulldown_cmark::Tag::TableHead => Tag::TableHead,
        pulldown_cmark::Tag::TableRow => Tag::TableRow,
        pulldown_cmark::Tag::TableCell => Tag::TableCell,
        pulldown_cmark::Tag::BlockQuote => Tag::BlockQuote,
        pulldown_cmark::Tag::CodeBlock(kind) => Tag::CodeBlock {
            fence: match kind {
                pulldown_cmark::CodeBlockKind::Fenced(info) => Some(info.as_bytes().to_vec()),
                pulldown_cmark::CodeBlockKind::Indented => None,
            },
        },
        pulldown_cmark::Tag::List(start) => Tag::List { start },
        pulldown_cmark::Tag::Item => Tag::Item,
        pulldown_cmark::Tag::Emphasis => Tag::Emphasis,
        pulldown_cmark::Tag::Strong => Tag::Strong,
        pulldown_cmark::Tag::Strikethrough => Tag::Strikethrough,
        pulldown_cmark::Tag::Link(kind, dest, title) => Tag::Link {
            email: kind == pulldown_cmark::LinkType::Email,
            destination: dest.as_bytes().to_vec(),
            title: title.as_bytes().to_vec(),
        },
        pulldown_cmark::Tag::Image(_, dest, title) => Tag::Image {
            destination: dest.as_bytes().to_vec(),
            title: title.as_bytes().to_vec(),
        },
        pulldown_cmark::Tag::FootnoteDefinition(name) => {
            Tag::FootnoteDefinition { name: name.as_bytes().to_vec() }
        }
    }
}

fn convert_event(e: pulldown_cmark::Event) -> Event {
    match e {
        pulldown_cmark::Event::Start(t) => Event::Start(convert_tag(t)),
        pulldown_cmark::Event::End(t) => Event::End(convert_tag(t)),
        pulldown_cmark::Event::Text(s) => Event::Text(s.as_bytes().to_vec()),
        pulldown_cmark::Event::Code(s) => Event::Code(s.as_bytes().to_vec()),
        pulldown_cmark::Event::Html(s) => Event::Html(s.as_bytes().to_vec()),
        pulldown_cmark::Event::SoftBreak => Event::SoftBreak,
        pulldown_cmark::Event::HardBreak => Event::HardBreak,
        pulldown_cmark::Event::Rule => Event::Rule,
        pulldown_cmark::Event::FootnoteReference(name) => {
            Event::FootnoteReference(name.as_bytes().to_vec())
        }
        pulldown_cmark::Event::TaskListMarker(checked) => Event::TaskListMarker(checked),
    }
}

fn parse(source: &str) -> Vec<(Event, Span)> {
    let mut options = Options::empty();
    options.insert(
        Options::ENABLE_STRIKETHROUGH
            | Options::ENABLE_FOOTNOTES
            | Options::ENABLE_TABLES
            | Options::ENABLE_TASKLISTS,
    );
    Parser::new_ext(source, options)
        .into_offset_iter()
        .map(|(e, r)| (convert_event(e), Span { start: r.start, end: r.end }))
        .collect()
}

fn render_source(source: &str, modified: Option<usize>) -> String {
    let (out, ()) = render(&parse(source), modified, (), ());
    String::from_utf8(out).unwrap()
}

#[test]
fn end_to_end_heading_and_emphasis() {
    assert_eq!(
        render_source("# Hi\n\nA *b* c\n", None),
        "{\"kind\":\"parse_tree\",\"tree\":[{\"t\":\"h\",\"level\":1,\"c\":[\"Hi\"]},{\"t\":\"p\",\"c\":[\"A \",{\"t\":\"em\",\"c\":[\"b\"]},\" c\"]}]}"
    );
}

#[test]
fn end_to_end_footnotes_resolve_stably() {
    let src = "x[^a] y[^b] z[^a]\n\n[^b]: B\n\n[^a]: A\n";
    let out = render_source(src, None);
    let refs: Vec<&str> = out.matches("{\"t\":\"fn-ref\",\"id\":1}").collect();
    assert_eq!(refs.len(), 2);
    assert!(out.contains("{\"t\":\"fn-ref\",\"id\":2}"));
    assert!(out.contains("\"name\":\"a\",\"id\":1"));
    assert!(out.contains("\"name\":\"b\",\"id\":2"));
}

#[test]
fn end_to_end_table_synthesizes_body_group() {
    let src = "|A|B|\n|-|-|\n|1|2|\n";
    let out = render_source(src, None);
    assert!(out.contains("{\"t\":\"thead\",\"c\":[{\"t\":\"tr\",\"c\":[{\"t\":\"th\","));
    assert!(out.contains("{\"t\":\"tbody\",\"c\":[{\"t\":\"tr\",\"c\":[{\"t\":\"td\","));
}

#[test]
fn end_to_end_inline_code_span_is_trimmed() {
    assert_eq!(
        render_source("`x`\n", None),
        "{\"kind\":\"parse_tree\",\"tree\":[{\"t\":\"p\",\"c\":[{\"t\":\"code\",\"c\":[\"x\"]}]}]}"
    );
}

#[test]
fn end_to_end_modified_offset_inside_text() {
    // "abc def" is one text span at [0, 7); offset 3 splits it there.
    assert_eq!(
        render_source("abc def\n", Some(3)),
        "{\"kind\":\"parse_tree\",\"tree\":[{\"t\":\"p\",\"c\":[\"abc\",{\"t\":\"modified\"},\" def\"]}]}"
    );
}

#[test]
fn end_to_end_task_list_and_rule() {
    let out = render_source("- [x] done\n\n---\n", None);
    assert!(out.contains("{\"t\":\"checkbox\",\"checked\":true}"));
    assert!(out.contains("{\"t\":\"hr\"}"));
}
