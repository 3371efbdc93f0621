//! The pluggable capabilities a serialization pass is parameterized by:
//! search-match text tokenization and the parse-result accumulator.
//!
//! Both traits carry a specification function that models the executable
//! method exactly, so a whole pass is deterministic relative to the
//! capability models and contracts downstream can state the output
//! byte-for-byte.

use vstd::prelude::*;

verus! {

/// Classification of one tokenized sub-span of text.
#[derive(Clone, Copy)]
pub enum TokenKind {
    Normal,
    MatchOther,
    MatchCurrent,
}

/// Splits a text span into highlight-classified sub-spans. Each call
/// classifies a prefix of the remaining text; the serializer loops until
/// the text is consumed.
pub trait TextTokenizer: Sized {
    /// Model of one step on `text` lying at the byte range
    /// `[start, end)`: the classification, the length of the prefix it
    /// applies to, and the tokenizer state afterwards.
    spec fn spec_tokenize(&self, text: Seq<u8>, start: int, end: int) -> (TokenKind, int, Self);

    /// One tokenization step. Any implementation must consume at least
    /// one byte of a non-empty input, or the serializer's loop over the
    /// remaining text could not advance.
    fn tokenize(&mut self, text: &[u8], start: usize, end: usize) -> (r: (TokenKind, usize))
        ensures
            ({
                let (kind, len, next) = old(self).spec_tokenize(
                    text@,
                    start as int,
                    end as int,
                );
                r.0 == kind && r.1 as int == len && *final(self) == next && r.1 <= text@.len()
                    && (text@.len() > 0 ==> r.1 >= 1)
            }),
    ;
}

/// The no-op tokenizer: the whole input is normal text in one step.
impl TextTokenizer for () {
    open spec fn spec_tokenize(&self, text: Seq<u8>, start: int, end: int) -> (
        TokenKind,
        int,
        (),
    ) {
        (TokenKind::Normal, text.len() as int, ())
    }

    fn tokenize(&mut self, text: &[u8], start: usize, end: usize) -> (r: (TokenKind, usize)) {
        (TokenKind::Normal, text.len())
    }
}

/// Side-channel observer invoked on every literal text span handed to
/// tokenization, strictly before classification; both halves of an
/// offset-split span are observed separately.
pub trait ParseResult: Sized {
    /// Model of observing one text span at the byte range `[start, end)`.
    spec fn spec_on_text(&self, text: Seq<u8>, start: int, end: int) -> Self;

    /// Observe one text span.
    fn on_text(&mut self, text: &[u8], start: usize, end: usize)
        ensures
            *final(self) == old(self).spec_on_text(text@, start as int, end as int),
    ;
}

/// The no-op accumulator.
impl ParseResult for () {
    open spec fn spec_on_text(&self, text: Seq<u8>, start: int, end: int) -> () {
        ()
    }

    fn on_text(&mut self, text: &[u8], start: usize, end: usize) {
    }
}

} // verus!
