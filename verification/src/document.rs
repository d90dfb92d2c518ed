//! A document as the spell checker sees it: its characters, and the spans of
//! its words in the order in which they stand.

use vstd::prelude::*;

verus! {

/// A stretch of a document: the characters from `start` up to, not
/// including, `end`.
#[derive(Debug, Clone, Copy, PartialEq, Eq, Structural, Hash)]
pub struct Span {
    pub start: usize,
    pub end: usize,
}

impl Span {
    /// Whether the span lies within a text of `len` characters.
    pub open spec fn within(&self, len: nat) -> bool {
        self.start <= self.end && self.end <= len
    }
}

/// The characters of `source` that `span` covers.
pub open spec fn span_content(source: Seq<char>, span: Span) -> Seq<char> {
    source.subrange(span.start as int, span.end as int)
}

/// A document, split into words by whoever made it. Every word span lies
/// within the text.
#[derive(Debug)]
pub struct Document {
    source: Vec<char>,
    words: Vec<Span>,
}

impl Document {
    /// The characters of the document.
    pub closed spec fn source(&self) -> Seq<char> {
        self.source@
    }

    /// The spans of the words, in document order.
    pub closed spec fn word_spans(&self) -> Seq<Span> {
        self.words@
    }

    /// Every word span lies within the text.
    pub open spec fn wf(&self) -> bool {
        forall|i: int|
            0 <= i < self.word_spans().len() ==> (#[trigger] self.word_spans()[i]).within(
                self.source().len(),
            )
    }

    #[verifier::type_invariant]
    spec fn inv(&self) -> bool {
        self.wf()
    }

    /// Makes a document of a text and the spans of its words. There is no
    /// document where a span reaches beyond the text or ends before it starts.
    pub fn new(source: Vec<char>, words: Vec<Span>) -> (r: Option<Document>)
        ensures
            r is Some <==> (forall|i: int|
                0 <= i < words@.len() ==> (#[trigger] words@[i]).within(source@.len())),
            r matches Some(document) ==> document.wf() && document.source() == source@
                && document.word_spans() == words@,
    {
        let mut i: usize = 0;
        while i < words.len()
            invariant
                i <= words.len(),
                forall|j: int| 0 <= j < i ==> (#[trigger] words@[j]).within(source@.len()),
            decreases words.len() - i,
        {
            let span = words[i];
            if span.start > span.end || span.end > source.len() {
                return None;
            }
            i += 1;
        }
        Some(Document { source, words })
    }

    /// The spans of the words, in document order.
    pub fn words(&self) -> (r: &[Span])
        ensures
            r@ == self.word_spans(),
            self.wf(),
    {
        proof {
            use_type_invariant(self);
        }
        self.words.as_slice()
    }

    /// The characters that `span` covers, borrowed from the document.
    pub fn get_span_content(&self, span: Span) -> (r: &[char])
        requires
            span.within(self.source().len()),
        ensures
            r@ == span_content(self.source(), span),
    {
        let all = self.source.as_slice();
        &all[span.start..span.end]
    }
}

} // verus!
