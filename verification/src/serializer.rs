//! The tree serializer: one linear pass over the event stream, writing
//! the wire message incrementally into an append-only byte sink.
//!
//! Every method's contract states the emitted bytes and the state after
//! the call against the functions of [`crate::wire`], so the whole pass
//! is pinned down byte for byte. The sink is an owned byte buffer that
//! cannot fail; handing the finished message to a device, where a write
//! can fail, is the shell's business.

use vstd::prelude::*;

use crate::escape::{push_bytes, push_dec, push_escaped};
use crate::events::{Alignment, Event, Span, TableState, Tag};
use crate::events::{event_ok, tag_ok};
use crate::tokens::{ParseResult, TextTokenizer, TokenKind};
use crate::wire::{
    alignment_out, aligns_out, ascii, children_close, children_open, code_pad, comma_out,
    end_tag_fin_start, end_tag_out, id_assigned, id_of, ids_after, lemma_first_idx,
    lemma_first_tok, lemma_step_ids_len, marker_out, opened_state, pass_start, piece_out,
    push_ascii, render_out, render_parsed, run, split_len, start_tag_ids, start_tag_out,
    start_tag_table, step, tag_out, text_acc, text_fin_start, text_modified, text_out, text_tk,
    tokens_out, tokens_tk, view_ids, SerState,
};

verus! {

/// Byte-string equality.
pub fn bytes_eq(a: &[u8], b: &[u8]) -> (r: bool)
    ensures
        r == (a@ == b@),
{
    if a.len() != b.len() {
        return false;
    }
    let mut i: usize = 0;
    while i < a.len()
        invariant
            i <= a@.len(),
            a@.len() == b@.len(),
            forall|j: int| 0 <= j < i ==> a@[j] == b@[j],
        decreases a@.len() - i,
    {
        if a[i] != b[i] {
            return false;
        }
        i += 1;
    }
    proof {
        assert(a@ =~= b@);
    }
    true
}

/// Streaming serializer for one pass over a document's event stream.
pub struct ParseTreeSerializer<R: ParseResult, T: TextTokenizer> {
    pub out: Vec<u8>,
    pub table: TableState,
    pub is_start: bool,
    pub ids: Vec<Vec<u8>>,
    pub modified: Option<usize>,
    pub parsed: R,
    pub tokenizer: T,
}

impl<R: ParseResult, T: TextTokenizer> ParseTreeSerializer<R, T> {
    /// The pass state this serializer is in.
    pub open spec fn st(&self) -> SerState<R, T> {
        SerState {
            out: self.out@,
            table: self.table,
            is_start: self.is_start,
            ids: view_ids(self.ids@),
            modified: self.modified,
            parsed: self.parsed,
            tokenizer: self.tokenizer,
        }
    }

    /// All state but the sink and the first-position flag is untouched.
    pub open spec fn same_core(&self, other: &Self) -> bool {
        self.table == other.table && self.ids@ == other.ids@ && self.modified == other.modified
            && self.parsed == other.parsed && self.tokenizer == other.tokenizer
    }

    /// A fresh pass: empty sink, head table-state, first position,
    /// empty identifier table.
    pub fn new(modified: Option<usize>, tokenizer: T, parsed: R) -> (s: Self)
        ensures
            s.out@ == Seq::<u8>::empty(),
            s.table == TableState::Head,
            s.is_start,
            s.ids@ == Seq::<Vec<u8>>::empty(),
            s.modified == modified,
            s.parsed == parsed,
            s.tokenizer == tokenizer,
    {
        let s = ParseTreeSerializer {
            out: Vec::new(),
            table: TableState::Head,
            is_start: true,
            ids: Vec::new(),
            modified,
            parsed,
            tokenizer,
        };
        proof {
            assert(s.ids@ =~= Seq::<Vec<u8>>::empty());
        }
        s
    }

    /// Emit the separator owed before a node, consuming the
    /// first-position flag.
    fn comma(&mut self)
        ensures
            final(self).out@ == old(self).out@ + comma_out(old(self).is_start),
            !final(self).is_start,
            old(self).same_core(final(self)),
    {
        if !self.is_start {
            self.out.push(44);
        } else {
            self.is_start = false;
        }
        proof {
            assert(self.out@ =~= old(self).out@ + comma_out(old(self).is_start));
        }
    }

    /// Open a tagged node: separator, then `{"t":"<name>"`.
    fn tag(&mut self, name: &str)
        requires
            name.is_ascii(),
        ensures
            final(self).out@ == old(self).out@ + tag_out(old(self).is_start, name@),
            !final(self).is_start,
            old(self).same_core(final(self)),
    {
        self.comma();
        proof {
            reveal_strlit("{\"t\":\"");
        }
        push_ascii(&mut self.out, "{\"t\":\"");
        push_ascii(&mut self.out, name);
        self.out.push(34);
        proof {
            assert(self.out@ =~= old(self).out@ + tag_out(old(self).is_start, name@));
        }
    }

    /// Open a node's children array and return to first position.
    fn children_begin(&mut self)
        ensures
            final(self).out@ == old(self).out@ + children_open(),
            final(self).is_start,
            old(self).same_core(final(self)),
    {
        self.is_start = true;
        proof {
            reveal_strlit(",\"c\":[");
        }
        push_ascii(&mut self.out, ",\"c\":[");
    }

    /// Close a children array and its node.
    fn children_end(&mut self)
        ensures
            final(self).out@ == old(self).out@ + children_close(),
            !final(self).is_start,
            old(self).same_core(final(self)),
    {
        self.is_start = false;
        proof {
            reveal_strlit("]}");
        }
        push_ascii(&mut self.out, "]}");
    }

    /// Emit one complete `modified` marker node.
    fn marker(&mut self)
        ensures
            final(self).out@ == old(self).out@ + marker_out(old(self).is_start),
            !final(self).is_start,
            old(self).same_core(final(self)),
    {
        proof {
            reveal_strlit("modified");
        }
        self.tag("modified");
        self.out.push(125);
        proof {
            assert(self.out@ =~= old(self).out@ + marker_out(old(self).is_start));
        }
    }

    /// Emit an escaped JSON string literal; no separator, no flag change.
    fn string(&mut self, s: &[u8])
        ensures
            final(self).out@ == old(self).out@ + crate::escape::quoted(s@),
            final(self).is_start == old(self).is_start,
            old(self).same_core(final(self)),
    {
        push_escaped(&mut self.out, s);
    }

    /// Resolve a reference name to its identifier, assigning the next
    /// sequential one on first sight.
    fn id(&mut self, name: Vec<u8>) -> (r: usize)
        requires
            old(self).ids@.len() < usize::MAX,
        ensures
            r as int == id_of(view_ids(old(self).ids@), name@),
            view_ids(final(self).ids@) == ids_after(view_ids(old(self).ids@), name@),
            final(self).out@ == old(self).out@,
            final(self).is_start == old(self).is_start,
            final(self).table == old(self).table,
            final(self).modified == old(self).modified,
            final(self).parsed == old(self).parsed,
            final(self).tokenizer == old(self).tokenizer,
    {
        let mut i: usize = 0;
        while i < self.ids.len()
            invariant
                i <= self.ids@.len(),
                forall|j: int| 0 <= j < i ==> view_ids(self.ids@)[j] != name@,
                *self == *old(self),
            decreases self.ids@.len() - i,
        {
            let entry: &Vec<u8> = vstd::slice::slice_index_get(self.ids.as_slice(), i);
            if bytes_eq(entry.as_slice(), name.as_slice()) {
                proof {
                    assert(view_ids(self.ids@)[i as int] == name@);
                    lemma_first_idx(view_ids(self.ids@), name@, i as int);
                }
                return i + 1;
            }
            proof {
                assert(view_ids(self.ids@)[i as int] == self.ids@[i as int]@);
            }
            i += 1;
        }
        proof {
            assert(!id_assigned(view_ids(self.ids@), name@));
        }
        let n = self.ids.len();
        self.ids.push(name);
        proof {
            assert(view_ids(self.ids@) =~= ids_after(view_ids(old(self).ids@), name@));
        }
        n + 1
    }

    /// Hand a text span to the accumulator, then tokenize it and emit
    /// every classified piece in order.
    fn text_tokens(&mut self, text: &[u8], start: usize, end: usize)
        requires
            start + text@.len() <= usize::MAX,
        ensures
            final(self).out@ == old(self).out@ + tokens_out(
                old(self).tokenizer,
                text@,
                start as int,
                end as int,
                old(self).is_start,
            ),
            final(self).tokenizer == tokens_tk(
                old(self).tokenizer,
                text@,
                start as int,
                end as int,
            ),
            final(self).parsed == old(self).parsed.spec_on_text(
                text@,
                start as int,
                end as int,
            ),
            final(self).is_start == (if text@.len() == 0 {
                old(self).is_start
            } else {
                false
            }),
            final(self).table == old(self).table,
            final(self).ids@ == old(self).ids@,
            final(self).modified == old(self).modified,
    {
        self.parsed.on_text(text, start, end);
        let mut rest: &[u8] = text;
        let mut pos: usize = start;
        let ghost mut emitted: Seq<u8> = Seq::empty();
        proof {
            assert(self.out@ =~= old(self).out@ + emitted);
        }
        while rest.len() > 0
            invariant
                start <= pos,
                pos as int + rest@.len() == start as int + text@.len(),
                start as int + text@.len() <= usize::MAX,
                self.out@ == old(self).out@ + emitted,
                emitted + tokens_out(
                    self.tokenizer,
                    rest@,
                    pos as int,
                    end as int,
                    self.is_start,
                ) == tokens_out(
                    old(self).tokenizer,
                    text@,
                    start as int,
                    end as int,
                    old(self).is_start,
                ),
                tokens_tk(self.tokenizer, rest@, pos as int, end as int) == tokens_tk(
                    old(self).tokenizer,
                    text@,
                    start as int,
                    end as int,
                ),
                self.is_start == (if rest@.len() == text@.len() {
                    old(self).is_start
                } else {
                    false
                }),
                self.table == old(self).table,
                self.ids@ == old(self).ids@,
                self.modified == old(self).modified,
                self.parsed == old(self).parsed.spec_on_text(text@, start as int, end as int),
            decreases rest@.len(),
        {
            let ghost pre = *self;
            let ghost rest0 = rest@;
            let ghost pos0 = pos as int;
            let (kind, n) = self.tokenizer.tokenize(rest, pos, end);
            let piece = vstd::slice::slice_subrange(rest, 0, n);
            proof {
                assert(piece@ =~= rest0.take(n as int));
            }
            match kind {
                TokenKind::Normal => {
                    self.comma();
                    self.string(piece);
                },
                TokenKind::MatchOther => {
                    proof {
                        reveal_strlit("match");
                    }
                    self.tag("match");
                    self.children_begin();
                    self.string(piece);
                    self.children_end();
                },
                TokenKind::MatchCurrent => {
                    proof {
                        reveal_strlit("match-current");
                    }
                    self.tag("match-current");
                    self.children_begin();
                    self.string(piece);
                    self.children_end();
                },
            }
            proof {
                assert(self.out@ =~= pre.out@ + piece_out(kind, rest0.take(n as int), pre.is_start));
                emitted = emitted + piece_out(kind, rest0.take(n as int), pre.is_start);
                assert(self.out@ =~= old(self).out@ + emitted);
            }
            rest = vstd::slice::slice_subrange(rest, n, rest.len());
            pos = pos + n;
            proof {
                assert(rest@ =~= rest0.skip(n as int));
                assert(tokens_out(pre.tokenizer, rest0, pos0, end as int, pre.is_start)
                    == piece_out(kind, rest0.take(n as int), pre.is_start) + tokens_out(
                    self.tokenizer,
                    rest0.skip(n as int),
                    pos0 + n,
                    end as int,
                    false,
                ));
                assert(tokens_tk(pre.tokenizer, rest0, pos0, end as int) == tokens_tk(
                    self.tokenizer,
                    rest0.skip(n as int),
                    pos0 + n,
                    end as int,
                ));
                assert(emitted + tokens_out(
                    self.tokenizer,
                    rest@,
                    pos as int,
                    end as int,
                    self.is_start,
                ) =~= tokens_out(
                    old(self).tokenizer,
                    text@,
                    start as int,
                    end as int,
                    old(self).is_start,
                ));
            }
        }
        proof {
            assert(tokens_out(self.tokenizer, rest@, pos as int, end as int, self.is_start)
                =~= Seq::<u8>::empty());
            assert(self.out@ =~= old(self).out@ + tokens_out(
                old(self).tokenizer,
                text@,
                start as int,
                end as int,
                old(self).is_start,
            ));
        }
    }

    /// Emit one text-bearing span, resolving the modified offset against
    /// its range: the marker lands before, after, or inside the
    /// tokenized text, and the offset is consumed the first time the
    /// range reaches it.
    fn text(&mut self, text: &[u8], start: usize, end: usize)
        requires
            start <= end,
            start + text@.len() <= usize::MAX,
        ensures
            final(self).out@ == old(self).out@ + text_out(
                old(self).tokenizer,
                text@,
                start as int,
                end as int,
                old(self).is_start,
                old(self).modified,
            ),
            final(self).tokenizer == text_tk(
                old(self).tokenizer,
                text@,
                start as int,
                end as int,
                old(self).modified,
            ),
            final(self).parsed == text_acc(
                old(self).parsed,
                text@,
                start as int,
                end as int,
                old(self).modified,
            ),
            final(self).modified == text_modified(end as int, old(self).modified),
            final(self).is_start == text_fin_start(
                text@,
                end as int,
                old(self).is_start,
                old(self).modified,
            ),
            final(self).table == old(self).table,
            final(self).ids@ == old(self).ids@,
    {
        let m = self.modified;
        match m {
            Option::None => {
                self.text_tokens(text, start, end);
            },
            Option::Some(offset) => {
                if end < offset {
                    self.text_tokens(text, start, end);
                } else {
                    self.modified = None;
                    if offset <= start {
                        self.marker();
                        self.text_tokens(text, start, end);
                        proof {
                            assert(self.out@ =~= old(self).out@ + text_out(
                                old(self).tokenizer,
                                text@,
                                start as int,
                                end as int,
                                old(self).is_start,
                                old(self).modified,
                            ));
                        }
                    } else if end == offset {
                        self.text_tokens(text, start, end);
                        self.marker();
                        proof {
                            assert(self.out@ =~= old(self).out@ + text_out(
                                old(self).tokenizer,
                                text@,
                                start as int,
                                end as int,
                                old(self).is_start,
                                old(self).modified,
                            ));
                        }
                    } else {
                        let i = if offset - start <= text.len() {
                            offset - start
                        } else {
                            text.len()
                        };
                        let left = vstd::slice::slice_subrange(text, 0, i);
                        proof {
                            assert(left@ =~= text@.take(i as int));
                            assert(i as int == split_len(
                                text@.len() as int,
                                start as int,
                                offset as int,
                            ));
                        }
                        self.text_tokens(left, start, offset);
                        self.marker();
                        let right = vstd::slice::slice_subrange(text, i, text.len());
                        proof {
                            assert(right@ =~= text@.skip(i as int));
                        }
                        self.text_tokens(right, offset, end);
                        proof {
                            assert(self.out@ =~= old(self).out@ + text_out(
                                old(self).tokenizer,
                                text@,
                                start as int,
                                end as int,
                                old(self).is_start,
                                old(self).modified,
                            ));
                        }
                    }
                }
            },
        }
    }

    /// Open a plain tagged node with no attributes and its children
    /// array.
    fn tag_with_children(&mut self, name: &str)
        requires
            name.is_ascii(),
        ensures
            final(self).out@ == old(self).out@ + tag_out(old(self).is_start, name@)
                + children_open(),
            final(self).is_start,
            old(self).same_core(final(self)),
    {
        self.tag(name);
        self.children_begin();
        proof {
            assert(self.out@ =~= old(self).out@ + tag_out(old(self).is_start, name@)
                + children_open());
        }
    }

    /// Open a heading node: numeric level, optional slug id.
    fn heading_start(&mut self, level: u8, id: &Option<Vec<u8>>)
        requires
            1 <= level <= 6,
        ensures
            final(self).out@ == old(self).out@ + start_tag_out(
                Tag::Heading { level, id: *id },
                old(self).is_start,
                old(self).table,
                view_ids(old(self).ids@),
            ),
            final(self).is_start,
            old(self).same_core(final(self)),
    {
        proof {
            reveal_strlit("h");
            reveal_strlit(",\"level\":");
        }
        self.tag("h");
        push_ascii(&mut self.out, ",\"level\":");
        push_dec(&mut self.out, level as u64);
        match id {
            Option::Some(s) => {
                proof {
                    reveal_strlit(",\"id\":");
                }
                push_ascii(&mut self.out, ",\"id\":");
                self.string(s.as_slice());
            },
            Option::None => {},
        }
        self.children_begin();
        proof {
            assert(self.out@ =~= old(self).out@ + start_tag_out(
                Tag::Heading { level, id: *id },
                old(self).is_start,
                old(self).table,
                view_ids(old(self).ids@),
            ));
        }
    }

    /// Open a table node: the column-aligned array of alignment tokens.
    fn table_start(&mut self, alignments: &Vec<Alignment>)
        ensures
            final(self).out@ == old(self).out@ + tag_out(old(self).is_start, "table"@) + ascii(
                ",\"align\":["@,
            ) + aligns_out(alignments@) + seq![93u8] + children_open(),
            final(self).is_start,
            old(self).same_core(final(self)),
    {
        proof {
            reveal_strlit("table");
            reveal_strlit(",\"align\":[");
        }
        self.tag("table");
        push_ascii(&mut self.out, ",\"align\":[");
        let ghost pre = *self;
        let mut k: usize = 0;
        while k < alignments.len()
            invariant
                k <= alignments@.len(),
                self.out@ == pre.out@ + aligns_out(alignments@.take(k as int)),
                self.is_start == pre.is_start,
                pre.same_core(self),
            decreases alignments@.len() - k,
        {
            if k > 0 {
                self.out.push(44);
            }
            let a = vstd::slice::slice_index_get(alignments.as_slice(), k);
            push_alignment(&mut self.out, a);
            proof {
                assert(alignments@.take(k as int + 1).drop_last() =~= alignments@.take(k as int));
                assert(alignments@.take(k as int + 1).last() == alignments@[k as int]);
                assert(self.out@ =~= pre.out@ + aligns_out(alignments@.take(k as int + 1)));
            }
            k += 1;
        }
        proof {
            assert(alignments@.take(alignments@.len() as int) =~= alignments@);
        }
        self.out.push(93);
        self.children_begin();
        proof {
            assert(self.out@ =~= old(self).out@ + tag_out(old(self).is_start, "table"@) + ascii(
                ",\"align\":["@,
            ) + aligns_out(alignments@) + seq![93u8] + children_open());
        }
    }

    /// Open a code block: outer `pre` node, inner `code` node, and the
    /// language attribute when the fence info string begins with a
    /// non-empty token.
    fn codeblock_start(&mut self, fence: &Option<Vec<u8>>)
        ensures
            final(self).out@ == old(self).out@ + start_tag_out(
                Tag::CodeBlock { fence: *fence },
                old(self).is_start,
                old(self).table,
                view_ids(old(self).ids@),
            ),
            final(self).is_start,
            old(self).same_core(final(self)),
    {
        proof {
            reveal_strlit("pre");
            reveal_strlit("code");
        }
        self.tag("pre");
        self.children_begin();
        self.tag("code");
        match fence {
            Option::Some(info) => {
                let j = find_space(info.as_slice());
                proof {
                    lemma_first_tok(info@, j as int);
                }
                if j > 0 {
                    proof {
                        reveal_strlit(",\"lang\":");
                    }
                    push_ascii(&mut self.out, ",\"lang\":");
                    let lang = vstd::slice::slice_subrange(info.as_slice(), 0, j);
                    proof {
                        assert(lang@ =~= info@.take(j as int));
                    }
                    self.string(lang);
                }
            },
            Option::None => {},
        }
        self.children_begin();
        proof {
            assert(self.out@ =~= old(self).out@ + start_tag_out(
                Tag::CodeBlock { fence: *fence },
                old(self).is_start,
                old(self).table,
                view_ids(old(self).ids@),
            ));
        }
    }

    /// Open a link node: destination with the `mailto:` prefix for
    /// email links, title only when non-empty.
    fn link_start(&mut self, email: bool, destination: &Vec<u8>, title: &Vec<u8>)
        ensures
            final(self).out@ == old(self).out@ + start_tag_out(
                Tag::Link { email, destination: *destination, title: *title },
                old(self).is_start,
                old(self).table,
                view_ids(old(self).ids@),
            ),
            final(self).is_start,
            old(self).same_core(final(self)),
    {
        proof {
            reveal_strlit("a");
            reveal_strlit(",\"href\":");
        }
        self.tag("a");
        push_ascii(&mut self.out, ",\"href\":");
        if email {
            let mut href: Vec<u8> = Vec::new();
            proof {
                reveal_strlit("mailto:");
            }
            push_ascii(&mut href, "mailto:");
            push_bytes(&mut href, destination.as_slice());
            proof {
                assert(href@ =~= ascii("mailto:"@) + destination@);
            }
            self.string(href.as_slice());
        } else {
            proof {
                assert(Seq::<u8>::empty() + destination@ =~= destination@);
            }
            self.string(destination.as_slice());
        }
        if title.len() > 0 {
            proof {
                reveal_strlit(",\"title\":");
            }
            push_ascii(&mut self.out, ",\"title\":");
            self.string(title.as_slice());
        }
        self.children_begin();
        proof {
            assert(self.out@ =~= old(self).out@ + start_tag_out(
                Tag::Link { email, destination: *destination, title: *title },
                old(self).is_start,
                old(self).table,
                view_ids(old(self).ids@),
            ));
        }
    }

    /// Open an image node: title only when non-empty, source always.
    fn image_start(&mut self, destination: &Vec<u8>, title: &Vec<u8>)
        ensures
            final(self).out@ == old(self).out@ + start_tag_out(
                Tag::Image { destination: *destination, title: *title },
                old(self).is_start,
                old(self).table,
                view_ids(old(self).ids@),
            ),
            final(self).is_start,
            old(self).same_core(final(self)),
    {
        proof {
            reveal_strlit("img");
            reveal_strlit(",\"src\":");
        }
        self.tag("img");
        if title.len() > 0 {
            proof {
                reveal_strlit(",\"title\":");
            }
            push_ascii(&mut self.out, ",\"title\":");
            self.string(title.as_slice());
        }
        push_ascii(&mut self.out, ",\"src\":");
        self.string(destination.as_slice());
        self.children_begin();
        proof {
            assert(self.out@ =~= old(self).out@ + start_tag_out(
                Tag::Image { destination: *destination, title: *title },
                old(self).is_start,
                old(self).table,
                view_ids(old(self).ids@),
            ));
        }
    }

    /// Open a footnote definition: name only when non-empty, and the
    /// sequential id the name resolves to.
    fn fndef_start(&mut self, name: &Vec<u8>)
        requires
            old(self).ids@.len() < usize::MAX,
        ensures
            final(self).out@ == old(self).out@ + start_tag_out(
                Tag::FootnoteDefinition { name: *name },
                old(self).is_start,
                old(self).table,
                view_ids(old(self).ids@),
            ),
            view_ids(final(self).ids@) == ids_after(view_ids(old(self).ids@), name@),
            final(self).is_start,
            final(self).table == old(self).table,
            final(self).modified == old(self).modified,
            final(self).parsed == old(self).parsed,
            final(self).tokenizer == old(self).tokenizer,
    {
        proof {
            reveal_strlit("fn-def");
            reveal_strlit(",\"id\":");
        }
        self.tag("fn-def");
        if name.len() > 0 {
            proof {
                reveal_strlit(",\"name\":");
            }
            push_ascii(&mut self.out, ",\"name\":");
            self.string(name.as_slice());
        }
        push_ascii(&mut self.out, ",\"id\":");
        let nm = vstd::slice::slice_to_vec(name.as_slice());
        let idv = self.id(nm);
        push_dec(&mut self.out, idv as u64);
        self.children_begin();
        proof {
            assert(self.out@ =~= old(self).out@ + start_tag_out(
                Tag::FootnoteDefinition { name: *name },
                old(self).is_start,
                old(self).table,
                view_ids(old(self).ids@),
            ));
        }
    }

    /// Open an ordered or unordered list node; an explicit start other
    /// than 1 becomes a start attribute.
    fn list_start(&mut self, start: &Option<u64>)
        ensures
            final(self).out@ == old(self).out@ + start_tag_out(
                Tag::List { start: *start },
                old(self).is_start,
                old(self).table,
                view_ids(old(self).ids@),
            ),
            final(self).is_start,
            old(self).same_core(final(self)),
    {
        match start {
            Option::Some(n) => {
                proof {
                    reveal_strlit("ol");
                }
                self.tag("ol");
                if *n != 1 {
                    proof {
                        reveal_strlit(",\"start\":");
                    }
                    push_ascii(&mut self.out, ",\"start\":");
                    push_dec(&mut self.out, *n);
                }
            },
            Option::None => {
                proof {
                    reveal_strlit("ul");
                }
                self.tag("ul");
            },
        }
        self.children_begin();
        proof {
            assert(self.out@ =~= old(self).out@ + start_tag_out(
                Tag::List { start: *start },
                old(self).is_start,
                old(self).table,
                view_ids(old(self).ids@),
            ));
        }
    }

    /// Open one structural node: separator, tag name, its attributes,
    /// and its children array; a table head also opens its implicit
    /// first row, a code block its inner `code` node.
    fn start_tag(&mut self, t: &Tag)
        requires
            tag_ok(*t),
            old(self).ids@.len() < usize::MAX,
        ensures
            final(self).out@ == old(self).out@ + start_tag_out(
                *t,
                old(self).is_start,
                old(self).table,
                view_ids(old(self).ids@),
            ),
            final(self).table == start_tag_table(*t, old(self).table),
            view_ids(final(self).ids@) == start_tag_ids(*t, view_ids(old(self).ids@)),
            final(self).is_start,
            final(self).modified == old(self).modified,
            final(self).parsed == old(self).parsed,
            final(self).tokenizer == old(self).tokenizer,
    {
        match t {
            Tag::Paragraph => {
                proof {
                    reveal_strlit("p");
                }
                self.tag_with_children("p");
            },
            Tag::Heading { level, id } => {
                self.heading_start(*level, id);
            },
            Tag::Table { alignments } => {
                self.table_start(alignments);
            },
            Tag::TableHead => {
                proof {
                    reveal_strlit("thead");
                    reveal_strlit("tr");
                }
                self.table = TableState::Head;
                self.tag("thead");
                self.children_begin();
                self.tag_with_children("tr");
                proof {
                    assert(self.out@ =~= old(self).out@ + start_tag_out(
                        *t,
                        old(self).is_start,
                        old(self).table,
                        view_ids(old(self).ids@),
                    ));
                }
            },
            Tag::TableRow => {
                proof {
                    reveal_strlit("tr");
                }
                self.table = TableState::Row;
                self.tag_with_children("tr");
            },
            Tag::TableCell => {
                match self.table {
                    TableState::Head => {
                        proof {
                            reveal_strlit("th");
                        }
                        self.tag_with_children("th");
                    },
                    TableState::Row => {
                        proof {
                            reveal_strlit("td");
                        }
                        self.tag_with_children("td");
                    },
                }
            },
            Tag::BlockQuote => {
                proof {
                    reveal_strlit("blockquote");
                }
                self.tag_with_children("blockquote");
            },
            Tag::CodeBlock { fence } => {
                self.codeblock_start(fence);
            },
            Tag::List { start } => {
                self.list_start(start);
            },
            Tag::Item => {
                proof {
                    reveal_strlit("li");
                }
                self.tag_with_children("li");
            },
            Tag::Emphasis => {
                proof {
                    reveal_strlit("em");
                }
                self.tag_with_children("em");
            },
            Tag::Strong => {
                proof {
                    reveal_strlit("strong");
                }
                self.tag_with_children("strong");
            },
            Tag::Strikethrough => {
                proof {
                    reveal_strlit("del");
                }
                self.tag_with_children("del");
            },
            Tag::Link { email, destination, title } => {
                self.link_start(*email, destination, title);
            },
            Tag::Image { destination, title } => {
                self.image_start(destination, title);
            },
            Tag::FootnoteDefinition { name } => {
                self.fndef_start(name);
            },
        }
    }

    /// Close one structural node. A table or code block closes its two
    /// nested nodes; a table head closes its implicit row and itself,
    /// then opens the synthetic body row-group.
    fn end_tag(&mut self, t: &Tag)
        ensures
            final(self).out@ == old(self).out@ + end_tag_out(*t),
            final(self).is_start == end_tag_fin_start(*t),
            old(self).same_core(final(self)),
    {
        match t {
            Tag::Table { .. } | Tag::CodeBlock { .. } => {
                self.children_end();
                self.children_end();
                proof {
                    assert(self.out@ =~= old(self).out@ + end_tag_out(*t));
                }
            },
            Tag::TableHead => {
                self.children_end();
                self.children_end();
                proof {
                    reveal_strlit("tbody");
                }
                self.tag("tbody");
                self.children_begin();
                proof {
                    assert(self.out@ =~= old(self).out@ + end_tag_out(*t));
                }
            },
            Tag::Paragraph
            | Tag::Heading { .. }
            | Tag::TableRow
            | Tag::TableCell
            | Tag::BlockQuote
            | Tag::List { .. }
            | Tag::Item
            | Tag::Emphasis
            | Tag::Strong
            | Tag::Strikethrough
            | Tag::Link { .. }
            | Tag::Image { .. }
            | Tag::FootnoteDefinition { .. } => {
                self.children_end();
            },
        }
    }

    /// Serialize one event: dispatch over the closed vocabulary.
    pub fn event(&mut self, e: &Event, sp: Span)
        requires
            event_ok(*e, sp),
            old(self).ids@.len() < usize::MAX,
        ensures
            final(self).st() == step(old(self).st(), *e, sp),
    {
        match e {
            Event::Start(t) => {
                self.start_tag(t);
                proof {
                    assert(self.st() =~= step(old(self).st(), *e, sp));
                }
            },
            Event::End(t) => {
                self.end_tag(t);
                proof {
                    assert(self.st() =~= step(old(self).st(), *e, sp));
                }
            },
            Event::Text(text) => {
                self.text(text.as_slice(), sp.start, sp.end);
                proof {
                    assert(self.st() =~= step(old(self).st(), *e, sp));
                }
            },
            Event::Code(text) => {
                proof {
                    reveal_strlit("code");
                }
                let len = sp.end - sp.start;
                let pad = (len - text.len()) / 2;
                self.tag("code");
                self.children_begin();
                self.text(text.as_slice(), sp.start + pad, sp.end - pad);
                self.children_end();
                proof {
                    assert(pad as int == code_pad(text@.len() as int, sp));
                    assert(self.st() =~= step(old(self).st(), *e, sp));
                }
            },
            Event::Html(raw) => {
                proof {
                    reveal_strlit("html");
                    reveal_strlit(",\"raw\":");
                }
                self.tag("html");
                push_ascii(&mut self.out, ",\"raw\":");
                self.string(raw.as_slice());
                self.out.push(125);
                proof {
                    assert(self.st() =~= step(old(self).st(), *e, sp));
                }
            },
            Event::SoftBreak => {
                let mut nl: Vec<u8> = Vec::new();
                nl.push(10);
                proof {
                    assert(nl@ =~= seq![10u8]);
                }
                self.text(nl.as_slice(), sp.start, sp.end);
                proof {
                    assert(self.st() =~= step(old(self).st(), *e, sp));
                }
            },
            Event::HardBreak => {
                proof {
                    reveal_strlit("br");
                }
                self.tag("br");
                self.out.push(125);
                proof {
                    assert(self.st() =~= step(old(self).st(), *e, sp));
                }
            },
            Event::Rule => {
                proof {
                    reveal_strlit("hr");
                }
                self.tag("hr");
                self.out.push(125);
                proof {
                    assert(self.st() =~= step(old(self).st(), *e, sp));
                }
            },
            Event::FootnoteReference(name) => {
                proof {
                    reveal_strlit("fn-ref");
                    reveal_strlit(",\"id\":");
                }
                self.tag("fn-ref");
                push_ascii(&mut self.out, ",\"id\":");
                let nm = vstd::slice::slice_to_vec(name.as_slice());
                let idv = self.id(nm);
                push_dec(&mut self.out, idv as u64);
                self.out.push(125);
                proof {
                    assert(self.st() =~= step(old(self).st(), *e, sp));
                }
            },
            Event::TaskListMarker(checked) => {
                proof {
                    reveal_strlit("checkbox");
                    reveal_strlit(",\"checked\":");
                }
                self.tag("checkbox");
                push_ascii(&mut self.out, ",\"checked\":");
                if *checked {
                    proof {
                        reveal_strlit("true");
                    }
                    push_ascii(&mut self.out, "true");
                } else {
                    proof {
                        reveal_strlit("false");
                    }
                    push_ascii(&mut self.out, "false");
                }
                self.out.push(125);
                proof {
                    assert(self.st() =~= step(old(self).st(), *e, sp));
                }
            },
        }
    }

    /// Serialize the whole event stream as the tree array, appending
    /// the end-of-stream fallback marker when the modified offset was
    /// never consumed by any text.
    pub fn push(&mut self, events: &Vec<(Event, Span)>)
        requires
            forall|i: int|
                0 <= i < events@.len() ==> event_ok(
                    #[trigger] events@[i].0,
                    events@[i].1,
                ),
            old(self).ids@.len() + events@.len() <= usize::MAX,
        ensures
            ({
                let fin = run(opened_state(old(self).st()), events@);
                final(self).out@ == fin.out + (if fin.modified.is_some() {
                    marker_out(fin.is_start)
                } else {
                    Seq::<u8>::empty()
                }) + seq![93u8] && final(self).table == fin.table && view_ids(final(self).ids@)
                    == fin.ids && final(self).modified == fin.modified && final(self).parsed
                    == fin.parsed && final(self).tokenizer == fin.tokenizer
                    && final(self).is_start == (if fin.modified.is_some() {
                    false
                } else {
                    fin.is_start
                })
            }),
    {
        self.out.push(91);
        let ghost opened = self.st();
        proof {
            assert(opened =~= opened_state(old(self).st()));
        }
        let mut i: usize = 0;
        while i < events.len()
            invariant
                i <= events@.len(),
                self.st() == run(opened, events@.take(i as int)),
                forall|k: int|
                    0 <= k < events@.len() ==> event_ok(
                        #[trigger] events@[k].0,
                        events@[k].1,
                    ),
                opened.ids.len() + events@.len() <= usize::MAX,
                self.st().ids.len() <= opened.ids.len() + i,
            decreases events@.len() - i,
        {
            let pair = vstd::slice::slice_index_get(events.as_slice(), i);
            let ghost pre = self.st();
            self.event(&pair.0, pair.1);
            proof {
                lemma_step_ids_len(pre, events@[i as int].0, events@[i as int].1);
                assert(events@.take(i as int + 1).drop_last() =~= events@.take(i as int));
                assert(events@.take(i as int + 1).last() == events@[i as int]);
                assert(self.st() =~= run(opened, events@.take(i as int + 1)));
            }
            i += 1;
        }
        proof {
            assert(events@.take(events@.len() as int) =~= events@);
        }
        let ghost fin = run(opened_state(old(self).st()), events@);
        if self.modified.is_some() {
            self.marker();
        }
        self.out.push(93);
        proof {
            assert(self.out@ =~= fin.out + (if fin.modified.is_some() {
                marker_out(fin.is_start)
            } else {
                Seq::<u8>::empty()
            }) + seq![93u8]);
        }
    }
}

/// Serialize a whole document: the event stream for one pass, an
/// optional modified byte offset, a text tokenizer, and a parse-result
/// accumulator; the wire message and the accumulator's final value come
/// back.
pub fn render<R: ParseResult, T: TextTokenizer>(
    events: &Vec<(Event, Span)>,
    modified: Option<usize>,
    tokenizer: T,
    parsed: R,
) -> (r: (Vec<u8>, R))
    requires
        forall|i: int|
            0 <= i < events@.len() ==> event_ok(#[trigger] events@[i].0, events@[i].1),
    ensures
        r.0@ == render_out(events@, modified, parsed, tokenizer),
        r.1 == render_parsed(events@, modified, parsed, tokenizer),
{
    let mut ser = ParseTreeSerializer::new(modified, tokenizer, parsed);
    proof {
        reveal_strlit("{\"kind\":\"parse_tree\",\"tree\":");
    }
    push_ascii(&mut ser.out, "{\"kind\":\"parse_tree\",\"tree\":");
    let n = events.len();
    proof {
        assert(events@.len() == n);
        assert(ser.ids@.len() + events@.len() <= usize::MAX);
    }
    ser.push(events);
    proof {
        assert(opened_state(SerState {
            out: ascii("{\"kind\":\"parse_tree\",\"tree\":"@),
            table: TableState::Head,
            is_start: true,
            ids: view_ids(Seq::<Vec<u8>>::empty()),
            modified: modified,
            parsed: parsed,
            tokenizer: tokenizer,
        }) =~= pass_start(modified, parsed, tokenizer));
    }
    ser.out.push(125);
    proof {
        assert(ser.out@ =~= render_out(events@, modified, parsed, tokenizer));
    }
    (ser.out, ser.parsed)
}

/// The index of the first space in a byte string, or its length.
fn find_space(s: &[u8]) -> (j: usize)
    ensures
        j <= s@.len(),
        forall|k: int| 0 <= k < j ==> s@[k] != 32,
        j == s@.len() || s@[j as int] == 32,
{
    let mut j: usize = 0;
    while j < s.len()
        invariant
            j <= s@.len(),
            forall|k: int| 0 <= k < j ==> s@[k] != 32,
        decreases s@.len() - j,
    {
        if s[j] == 32 {
            return j;
        }
        j += 1;
    }
    j
}

/// Emit one column alignment token.
fn push_alignment(out: &mut Vec<u8>, a: &Alignment)
    ensures
        final(out)@ == old(out)@ + alignment_out(*a),
{
    match a {
        Alignment::Auto => {
            proof {
                reveal_strlit("null");
            }
            push_ascii(out, "null");
        },
        Alignment::Left => {
            proof {
                reveal_strlit("\"left\"");
            }
            push_ascii(out, "\"left\"");
        },
        Alignment::Center => {
            proof {
                reveal_strlit("\"center\"");
            }
            push_ascii(out, "\"center\"");
        },
        Alignment::Right => {
            proof {
                reveal_strlit("\"right\"");
            }
            push_ascii(out, "\"right\"");
        },
    }
}

} // verus!
