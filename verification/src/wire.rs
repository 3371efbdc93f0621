//! The output wire grammar, as mathematics.
//!
//! Every function here is specification: together they pin down, byte for
//! byte, the message a serialization pass emits for a given event stream,
//! relative to the models of the two injected capabilities. The
//! executable serializer's contracts are stated against these functions.

use vstd::prelude::*;

use crate::escape::{dec_digits, quoted};
use crate::events::{Alignment, Event, Span, TableState, Tag};
use crate::tokens::{ParseResult, TextTokenizer, TokenKind};

verus! {

/// The bytes of an ASCII-only character sequence.
pub open spec fn ascii(s: Seq<char>) -> Seq<u8> {
    Seq::new(s.len(), |i: int| s[i] as u8)
}

/// Append the bytes of an ASCII string literal.
pub fn push_ascii(out: &mut Vec<u8>, s: &str)
    requires
        s.is_ascii(),
    ensures
        final(out)@ == old(out)@ + ascii(s@),
{
    proof {
        vstd::string::is_ascii_spec_bytes(s);
    }
    crate::escape::push_bytes(out, s.as_bytes());
    proof {
        assert(out@ =~= old(out)@ + ascii(s@));
    }
}

/// The separator a node emits before itself: nothing in first position,
/// a comma otherwise.
pub open spec fn comma_out(is_start: bool) -> Seq<u8> {
    if is_start {
        Seq::empty()
    } else {
        seq![44u8]
    }
}

/// The opening of a tagged node: separator, then `{"t":"<name>"`.
pub open spec fn tag_out(is_start: bool, name: Seq<char>) -> Seq<u8> {
    comma_out(is_start) + ascii("{\"t\":\""@) + ascii(name) + seq![34u8]
}

/// The opening of a children array: `,"c":[`.
pub open spec fn children_open() -> Seq<u8> {
    ascii(",\"c\":["@)
}

/// The closing of a children array and its node: `]}`.
pub open spec fn children_close() -> Seq<u8> {
    ascii("]}"@)
}

/// A complete `modified` marker node.
pub open spec fn marker_out(is_start: bool) -> Seq<u8> {
    tag_out(is_start, "modified"@) + seq![125u8]
}

/// One column alignment token.
pub open spec fn alignment_out(a: Alignment) -> Seq<u8> {
    match a {
        Alignment::Auto => ascii("null"@),
        Alignment::Left => ascii("\"left\""@),
        Alignment::Center => ascii("\"center\""@),
        Alignment::Right => ascii("\"right\""@),
    }
}

/// A comma-separated list of alignment tokens, in column order.
pub open spec fn aligns_out(v: Seq<Alignment>) -> Seq<u8>
    decreases v.len(),
{
    if v.len() == 0 {
        Seq::empty()
    } else if v.len() == 1 {
        alignment_out(v[0])
    } else {
        aligns_out(v.drop_last()) + seq![44u8] + alignment_out(v.last())
    }
}

/// The first space-delimited token of a code fence info string.
pub open spec fn first_tok(s: Seq<u8>) -> Seq<u8>
    decreases s.len(),
{
    if s.len() == 0 {
        Seq::empty()
    } else if s[0] == 32 {
        Seq::empty()
    } else {
        seq![s[0]] + first_tok(s.skip(1))
    }
}

/// Whether a reference name already has an identifier.
pub open spec fn id_assigned(ids: Seq<Seq<u8>>, name: Seq<u8>) -> bool {
    exists|i: int| 0 <= i < ids.len() && ids[i] == name
}

/// The position of the first entry holding `name` (the table's length
/// when there is none).
pub open spec fn first_idx(ids: Seq<Seq<u8>>, name: Seq<u8>) -> int
    decreases ids.len(),
{
    if ids.len() == 0 {
        0
    } else if ids[0] == name {
        0
    } else {
        1 + first_idx(ids.skip(1), name)
    }
}

/// The identifier a name resolves to: its first-seen position plus one,
/// ids counting from 1 in first-occurrence order.
pub open spec fn id_of(ids: Seq<Seq<u8>>, name: Seq<u8>) -> int {
    if id_assigned(ids, name) {
        first_idx(ids, name) + 1
    } else {
        ids.len() as int + 1
    }
}

/// The identifier table after resolving `name`: unchanged when the name
/// is known, extended by it otherwise.
pub open spec fn ids_after(ids: Seq<Seq<u8>>, name: Seq<u8>) -> Seq<Seq<u8>> {
    if id_assigned(ids, name) {
        ids
    } else {
        ids.push(name)
    }
}

/// One emitted text piece: a bare string for normal text, a `match` or
/// `match-current` node wrapping the string otherwise.
pub open spec fn piece_out(kind: TokenKind, piece: Seq<u8>, is_start: bool) -> Seq<u8> {
    match kind {
        TokenKind::Normal => comma_out(is_start) + quoted(piece),
        TokenKind::MatchOther => tag_out(is_start, "match"@) + children_open() + quoted(piece)
            + children_close(),
        TokenKind::MatchCurrent => tag_out(is_start, "match-current"@) + children_open() + quoted(
            piece,
        ) + children_close(),
    }
}

/// The pieces a tokenizer cuts `text` into, each rendered in order. The
/// tokenizer model consumes a non-empty prefix at every step; the final
/// branch is never reached by a conforming tokenizer.
pub open spec fn tokens_out<T: TextTokenizer>(
    tk: T,
    text: Seq<u8>,
    start: int,
    end: int,
    is_start: bool,
) -> Seq<u8>
    decreases text.len(),
{
    if text.len() == 0 {
        Seq::empty()
    } else {
        let (kind, n, tk2) = tk.spec_tokenize(text, start, end);
        if 1 <= n <= text.len() {
            piece_out(kind, text.take(n), is_start) + tokens_out(tk2, text.skip(n), start + n, end, false)
        } else {
            Seq::empty()
        }
    }
}

/// The tokenizer state after consuming `text` completely.
pub open spec fn tokens_tk<T: TextTokenizer>(tk: T, text: Seq<u8>, start: int, end: int) -> T
    decreases text.len(),
{
    if text.len() == 0 {
        tk
    } else {
        let (kind, n, tk2) = tk.spec_tokenize(text, start, end);
        if 1 <= n <= text.len() {
            tokens_tk(tk2, text.skip(n), start + n, end)
        } else {
            tk
        }
    }
}

/// Where a text span is cut by a modified offset lying strictly inside
/// its range: at `off - start`, clamped to the text's length.
pub open spec fn split_len(text_len: int, start: int, off: int) -> int {
    if off - start <= text_len {
        off - start
    } else {
        text_len
    }
}

/// The bytes one text-bearing event emits, with the modified marker
/// injected before, after, or inside the tokenized text as the offset
/// falls, or nowhere when it is absent or not yet reached.
pub open spec fn text_out<T: TextTokenizer>(
    tk: T,
    text: Seq<u8>,
    start: int,
    end: int,
    is_start: bool,
    modified: Option<usize>,
) -> Seq<u8> {
    match modified {
        Option::None => tokens_out(tk, text, start, end, is_start),
        Option::Some(off) => {
            let o = off as int;
            if end < o {
                tokens_out(tk, text, start, end, is_start)
            } else if o <= start {
                marker_out(is_start) + tokens_out(tk, text, start, end, false)
            } else if o == end {
                tokens_out(tk, text, start, end, is_start) + marker_out(
                    if text.len() == 0 {
                        is_start
                    } else {
                        false
                    },
                )
            } else {
                let i = split_len(text.len() as int, start, o);
                tokens_out(tk, text.take(i), start, o, is_start) + marker_out(
                    if i == 0 {
                        is_start
                    } else {
                        false
                    },
                ) + tokens_out(tokens_tk(tk, text.take(i), start, o), text.skip(i), o, end, false)
            }
        },
    }
}

/// The tokenizer state after one text-bearing event.
pub open spec fn text_tk<T: TextTokenizer>(
    tk: T,
    text: Seq<u8>,
    start: int,
    end: int,
    modified: Option<usize>,
) -> T {
    match modified {
        Option::None => tokens_tk(tk, text, start, end),
        Option::Some(off) => {
            let o = off as int;
            if end < o || o <= start || o == end {
                tokens_tk(tk, text, start, end)
            } else {
                let i = split_len(text.len() as int, start, o);
                tokens_tk(tokens_tk(tk, text.take(i), start, o), text.skip(i), o, end)
            }
        },
    }
}

/// The accumulator state after one text-bearing event: one observation
/// of the whole span, or one of each half of a split span.
pub open spec fn text_acc<R: ParseResult>(
    acc: R,
    text: Seq<u8>,
    start: int,
    end: int,
    modified: Option<usize>,
) -> R {
    match modified {
        Option::None => acc.spec_on_text(text, start, end),
        Option::Some(off) => {
            let o = off as int;
            if end < o || o <= start || o == end {
                acc.spec_on_text(text, start, end)
            } else {
                let i = split_len(text.len() as int, start, o);
                acc.spec_on_text(text.take(i), start, o).spec_on_text(text.skip(i), o, end)
            }
        },
    }
}

/// The modified offset after one text-bearing event: consumed as soon as
/// the event's range reaches it, kept while it lies strictly beyond.
pub open spec fn text_modified(end: int, modified: Option<usize>) -> Option<usize> {
    match modified {
        Option::None => Option::None,
        Option::Some(off) => {
            if end < off as int {
                Option::Some(off)
            } else {
                Option::None
            }
        },
    }
}

/// The first-position flag after one text-bearing event.
pub open spec fn text_fin_start(
    text: Seq<u8>,
    end: int,
    is_start: bool,
    modified: Option<usize>,
) -> bool {
    match modified {
        Option::None => text.len() == 0 && is_start,
        Option::Some(off) => {
            if end < off as int {
                text.len() == 0 && is_start
            } else {
                false
            }
        },
    }
}

/// The bytes a start event emits: the node opening, its tag-specific
/// attributes, and the opening of its children array. A table head also
/// opens its implicit first row; a code block opens its inner `code`
/// node.
pub open spec fn start_tag_out(
    t: Tag,
    is_start: bool,
    table: TableState,
    ids: Seq<Seq<u8>>,
) -> Seq<u8> {
    match t {
        Tag::Paragraph => tag_out(is_start, "p"@) + children_open(),
        Tag::Heading { level, id } => tag_out(is_start, "h"@) + ascii(",\"level\":"@)
            + dec_digits(level as nat) + (match id {
            Option::Some(s) => ascii(",\"id\":"@) + quoted(s@),
            Option::None => Seq::empty(),
        }) + children_open(),
        Tag::Table { alignments } => tag_out(is_start, "table"@) + ascii(",\"align\":["@)
            + aligns_out(alignments@) + seq![93u8] + children_open(),
        Tag::TableHead => tag_out(is_start, "thead"@) + children_open() + tag_out(true, "tr"@)
            + children_open(),
        Tag::TableRow => tag_out(is_start, "tr"@) + children_open(),
        Tag::TableCell => tag_out(
            is_start,
            if table == TableState::Head {
                "th"@
            } else {
                "td"@
            },
        ) + children_open(),
        Tag::BlockQuote => tag_out(is_start, "blockquote"@) + children_open(),
        Tag::CodeBlock { fence } => tag_out(is_start, "pre"@) + children_open() + tag_out(
            true,
            "code"@,
        ) + (match fence {
            Option::Some(info) => {
                if first_tok(info@).len() > 0 {
                    ascii(",\"lang\":"@) + quoted(first_tok(info@))
                } else {
                    Seq::empty()
                }
            },
            Option::None => Seq::empty(),
        }) + children_open(),
        Tag::List { start } => (match start {
            Option::Some(n) => tag_out(is_start, "ol"@) + (if n == 1 {
                Seq::empty()
            } else {
                ascii(",\"start\":"@) + dec_digits(n as nat)
            }),
            Option::None => tag_out(is_start, "ul"@),
        }) + children_open(),
        Tag::Item => tag_out(is_start, "li"@) + children_open(),
        Tag::Emphasis => tag_out(is_start, "em"@) + children_open(),
        Tag::Strong => tag_out(is_start, "strong"@) + children_open(),
        Tag::Strikethrough => tag_out(is_start, "del"@) + children_open(),
        Tag::Link { email, destination, title } => tag_out(is_start, "a"@) + ascii(",\"href\":"@)
            + quoted(
            (if email {
                ascii("mailto:"@)
            } else {
                Seq::empty()
            }) + destination@,
        ) + (if title@.len() > 0 {
            ascii(",\"title\":"@) + quoted(title@)
        } else {
            Seq::empty()
        }) + children_open(),
        Tag::Image { destination, title } => tag_out(is_start, "img"@) + (if title@.len() > 0 {
            ascii(",\"title\":"@) + quoted(title@)
        } else {
            Seq::empty()
        }) + ascii(",\"src\":"@) + quoted(destination@) + children_open(),
        Tag::FootnoteDefinition { name } => tag_out(is_start, "fn-def"@) + (if name@.len() > 0 {
            ascii(",\"name\":"@) + quoted(name@)
        } else {
            Seq::empty()
        }) + ascii(",\"id\":"@) + dec_digits(id_of(ids, name@) as nat) + children_open(),
    }
}

/// The table-state flag after a start event.
pub open spec fn start_tag_table(t: Tag, table: TableState) -> TableState {
    match t {
        Tag::TableHead => TableState::Head,
        Tag::TableRow => TableState::Row,
        _ => table,
    }
}

/// The identifier table after a start event.
pub open spec fn start_tag_ids(t: Tag, ids: Seq<Seq<u8>>) -> Seq<Seq<u8>> {
    match t {
        Tag::FootnoteDefinition { name } => ids_after(ids, name@),
        _ => ids,
    }
}

/// The bytes an end event emits. A table or code block closes two nested
/// nodes; a table head closes its implicit row and itself, then opens
/// the synthetic body row-group.
pub open spec fn end_tag_out(t: Tag) -> Seq<u8> {
    match t {
        Tag::Table { .. } => children_close() + children_close(),
        Tag::CodeBlock { .. } => children_close() + children_close(),
        Tag::TableHead => children_close() + children_close() + tag_out(false, "tbody"@)
            + children_open(),
        _ => children_close(),
    }
}

/// The first-position flag after an end event: only a table head leaves
/// a freshly opened children array behind.
pub open spec fn end_tag_fin_start(t: Tag) -> bool {
    match t {
        Tag::TableHead => true,
        _ => false,
    }
}

/// The complete state of one serialization pass: the bytes emitted so
/// far, the table flag, the first-position flag, the identifier table,
/// the unconsumed modified offset, and the two capability states.
#[verifier::ext_equal]
pub struct SerState<R, T> {
    pub out: Seq<u8>,
    pub table: TableState,
    pub is_start: bool,
    pub ids: Seq<Seq<u8>>,
    pub modified: Option<usize>,
    pub parsed: R,
    pub tokenizer: T,
}

/// The state after one text-bearing event on `[start, end)`.
pub open spec fn text_step<R: ParseResult, T: TextTokenizer>(
    st: SerState<R, T>,
    text: Seq<u8>,
    start: int,
    end: int,
) -> SerState<R, T> {
    SerState {
        out: st.out + text_out(st.tokenizer, text, start, end, st.is_start, st.modified),
        table: st.table,
        is_start: text_fin_start(text, end, st.is_start, st.modified),
        ids: st.ids,
        modified: text_modified(end, st.modified),
        parsed: text_acc(st.parsed, text, start, end, st.modified),
        tokenizer: text_tk(st.tokenizer, text, start, end, st.modified),
    }
}

/// The symmetric trim of an inline code literal's raw span: half the
/// difference between the span and the text it carries.
pub open spec fn code_pad(text_len: int, sp: Span) -> int {
    if text_len <= sp.end - sp.start {
        ((sp.end - sp.start) - text_len) / 2
    } else {
        0
    }
}

/// The state transition of one event.
pub open spec fn step<R: ParseResult, T: TextTokenizer>(
    st: SerState<R, T>,
    e: Event,
    sp: Span,
) -> SerState<R, T> {
    match e {
        Event::Start(t) => SerState {
            out: st.out + start_tag_out(t, st.is_start, st.table, st.ids),
            table: start_tag_table(t, st.table),
            is_start: true,
            ids: start_tag_ids(t, st.ids),
            modified: st.modified,
            parsed: st.parsed,
            tokenizer: st.tokenizer,
        },
        Event::End(t) => SerState {
            out: st.out + end_tag_out(t),
            table: st.table,
            is_start: end_tag_fin_start(t),
            ids: st.ids,
            modified: st.modified,
            parsed: st.parsed,
            tokenizer: st.tokenizer,
        },
        Event::Text(text) => text_step(st, text@, sp.start as int, sp.end as int),
        Event::Code(text) => {
            let pad = code_pad(text@.len() as int, sp);
            let opened = SerState {
                out: st.out + tag_out(st.is_start, "code"@) + children_open(),
                table: st.table,
                is_start: true,
                ids: st.ids,
                modified: st.modified,
                parsed: st.parsed,
                tokenizer: st.tokenizer,
            };
            let inner = text_step(opened, text@, sp.start + pad, sp.end - pad);
            SerState {
                out: inner.out + children_close(),
                table: inner.table,
                is_start: false,
                ids: inner.ids,
                modified: inner.modified,
                parsed: inner.parsed,
                tokenizer: inner.tokenizer,
            }
        },
        Event::Html(raw) => SerState {
            out: st.out + tag_out(st.is_start, "html"@) + ascii(",\"raw\":"@) + quoted(raw@)
                + seq![125u8],
            table: st.table,
            is_start: false,
            ids: st.ids,
            modified: st.modified,
            parsed: st.parsed,
            tokenizer: st.tokenizer,
        },
        Event::SoftBreak => text_step(st, seq![10u8], sp.start as int, sp.end as int),
        Event::HardBreak => SerState {
            out: st.out + tag_out(st.is_start, "br"@) + seq![125u8],
            table: st.table,
            is_start: false,
            ids: st.ids,
            modified: st.modified,
            parsed: st.parsed,
            tokenizer: st.tokenizer,
        },
        Event::Rule => SerState {
            out: st.out + tag_out(st.is_start, "hr"@) + seq![125u8],
            table: st.table,
            is_start: false,
            ids: st.ids,
            modified: st.modified,
            parsed: st.parsed,
            tokenizer: st.tokenizer,
        },
        Event::FootnoteReference(name) => SerState {
            out: st.out + tag_out(st.is_start, "fn-ref"@) + ascii(",\"id\":"@) + dec_digits(
                id_of(st.ids, name@) as nat,
            ) + seq![125u8],
            table: st.table,
            is_start: false,
            ids: ids_after(st.ids, name@),
            modified: st.modified,
            parsed: st.parsed,
            tokenizer: st.tokenizer,
        },
        Event::TaskListMarker(checked) => SerState {
            out: st.out + tag_out(st.is_start, "checkbox"@) + ascii(",\"checked\":"@) + (if checked {
                ascii("true"@)
            } else {
                ascii("false"@)
            }) + seq![125u8],
            table: st.table,
            is_start: false,
            ids: st.ids,
            modified: st.modified,
            parsed: st.parsed,
            tokenizer: st.tokenizer,
        },
    }
}

/// The state after a whole event stream, folded left to right.
pub open spec fn run<R: ParseResult, T: TextTokenizer>(
    st: SerState<R, T>,
    events: Seq<(Event, Span)>,
) -> SerState<R, T>
    decreases events.len(),
{
    if events.len() == 0 {
        st
    } else {
        step(run(st, events.drop_last()), events.last().0, events.last().1)
    }
}

/// The state a pass starts from, the envelope prefix and the opening
/// bracket of the tree already emitted.
pub open spec fn pass_start<R, T>(
    modified: Option<usize>,
    parsed: R,
    tokenizer: T,
) -> SerState<R, T> {
    SerState {
        out: ascii("{\"kind\":\"parse_tree\",\"tree\":"@) + seq![91u8],
        table: TableState::Head,
        is_start: true,
        ids: Seq::empty(),
        modified,
        parsed,
        tokenizer,
    }
}

/// The complete message of one pass: envelope, tree, the end-of-stream
/// fallback marker when the modified offset was never consumed, and the
/// closing brackets.
pub open spec fn render_out<R: ParseResult, T: TextTokenizer>(
    events: Seq<(Event, Span)>,
    modified: Option<usize>,
    parsed: R,
    tokenizer: T,
) -> Seq<u8> {
    let fin = run(pass_start(modified, parsed, tokenizer), events);
    fin.out + (if fin.modified.is_some() {
        marker_out(fin.is_start)
    } else {
        Seq::empty()
    }) + seq![93u8] + seq![125u8]
}

/// The accumulator value one pass hands back.
pub open spec fn render_parsed<R: ParseResult, T: TextTokenizer>(
    events: Seq<(Event, Span)>,
    modified: Option<usize>,
    parsed: R,
    tokenizer: T,
) -> R {
    run(pass_start(modified, parsed, tokenizer), events).parsed
}

/// The contents of an identifier table held as owned byte strings.
pub open spec fn view_ids(ids: Seq<Vec<u8>>) -> Seq<Seq<u8>> {
    ids.map_values(|v: Vec<u8>| v@)
}

/// The state a pass is in right after opening the tree's bracket.
pub open spec fn opened_state<R, T>(st: SerState<R, T>) -> SerState<R, T> {
    SerState {
        out: st.out + seq![91u8],
        table: st.table,
        is_start: st.is_start,
        ids: st.ids,
        modified: st.modified,
        parsed: st.parsed,
        tokenizer: st.tokenizer,
    }
}

/// One event assigns at most one fresh identifier.
pub proof fn lemma_step_ids_len<R: ParseResult, T: TextTokenizer>(
    st: SerState<R, T>,
    e: Event,
    sp: Span,
)
    ensures
        step(st, e, sp).ids.len() <= st.ids.len() + 1,
{
    match e {
        Event::Start(t) => {
            assert(step(st, e, sp).ids == start_tag_ids(t, st.ids));
        },
        Event::FootnoteReference(name) => {
            assert(step(st, e, sp).ids == ids_after(st.ids, name@));
        },
        _ => {},
    }
}

/// The first index scan agrees with a search from the front.
pub proof fn lemma_first_idx(ids: Seq<Seq<u8>>, name: Seq<u8>, i: int)
    requires
        0 <= i < ids.len(),
        ids[i] == name,
        forall|j: int| 0 <= j < i ==> ids[j] != name,
    ensures
        id_assigned(ids, name),
        first_idx(ids, name) == i,
    decreases i,
{
    if i == 0 {
    } else {
        assert(ids[0] != name);
        assert(ids.skip(1)[i - 1] == name);
        assert forall|j: int| 0 <= j < i - 1 implies ids.skip(1)[j] != name by {
            assert(ids.skip(1)[j] == ids[j + 1]);
        }
        lemma_first_idx(ids.skip(1), name, i - 1);
    }
}

/// A space-free prefix ending at a space or at the end of the string is
/// the first space-delimited token.
pub proof fn lemma_first_tok(s: Seq<u8>, j: int)
    requires
        0 <= j <= s.len(),
        forall|k: int| 0 <= k < j ==> s[k] != 32,
        j == s.len() || s[j] == 32,
    ensures
        first_tok(s) == s.take(j),
    decreases j,
{
    if j == 0 {
        assert(first_tok(s) =~= s.take(0));
    } else {
        assert(s[0] != 32);
        assert forall|k: int| 0 <= k < j - 1 implies s.skip(1)[k] != 32 by {
            assert(s.skip(1)[k] == s[k + 1]);
        }
        if j == s.len() {
            lemma_first_tok(s.skip(1), j - 1);
        } else {
            assert(s.skip(1)[j - 1] == 32);
            lemma_first_tok(s.skip(1), j - 1);
        }
        assert(first_tok(s) == seq![s[0]] + s.skip(1).take(j - 1));
        assert(first_tok(s) =~= s.take(j));
    }
}

} // verus!
