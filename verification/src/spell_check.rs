//! The spell checker: one pass over the words of a document.

use crate::document::span_content;
use crate::document::Document;
use crate::document::Span;
use crate::dictionary::Dictionary;
use crate::fst_dictionary::match_views;
use crate::fst_dictionary::MatchView;
use crate::lint::lint_views;
use crate::lint::Lint;
use crate::lint::LintKind;
use crate::lint::LintView;
use crate::lint::Suggestion;
use crate::word_metadata::WordMetadata;
use vstd::prelude::*;

verus! {

/// The edit distance within which the spell checker looks for suggestions.
pub const SUGGESTION_DISTANCE: u8 = 1;

/// The number of suggestions that the spell checker asks for.
pub const SUGGESTION_BUDGET: usize = 3;

/// The replacements suggested for an unknown word: the words that a fuzzy
/// lookup finds for it, in the lookup's order; none where the lookup fails.
pub open spec fn replacements_for<D: Dictionary>(dictionary: D, word: Seq<char>) -> Seq<Seq<char>> {
    match dictionary.fuzzy_results(word, SUGGESTION_DISTANCE, SUGGESTION_BUDGET as nat) {
        Some(found) => found.map_values(|m: MatchView| m.0),
        None => Seq::empty(),
    }
}

/// The lint for an unknown word at `span`.
pub open spec fn lint_for<D: Dictionary>(source: Seq<char>, dictionary: D, span: Span) -> LintView {
    (span, LintKind::Spelling, replacements_for(dictionary, span_content(source, span)))
}

/// The lints for a list of word spans: one for each span whose characters
/// the dictionary does not hold, in the order of the spans.
pub open spec fn lints_for<D: Dictionary>(source: Seq<char>, dictionary: D, spans: Seq<Span>) -> Seq<
    LintView,
> {
    spans.filter(|span: Span| !dictionary.word_list().contains(span_content(source, span))).map_values(
        |span: Span| lint_for(source, dictionary, span),
    )
}

/// A filter that nothing passes keeps nothing.
proof fn nothing_passes(spans: Seq<Span>, pred: spec_fn(Span) -> bool)
    requires
        forall|i: int| 0 <= i < spans.len() ==> !pred(#[trigger] spans[i]),
    ensures
        spans.filter(pred).len() == 0,
    decreases spans.len(),
{
    reveal(Seq::filter);
    if spans.len() > 0 {
        nothing_passes(spans.drop_last(), pred);
    }
}

/// A document in which every word is a word of the dictionary, character for
/// character, gives no lint.
pub proof fn known_words_give_no_lints<D: Dictionary>(document: Document, dictionary: D)
    requires
        forall|i: int|
            0 <= i < document.word_spans().len() ==> dictionary.word_list().contains(
                span_content(document.source(), #[trigger] document.word_spans()[i]),
            ),
    ensures
        lints_for(document.source(), dictionary, document.word_spans()).len() == 0,
{
    let source = document.source();
    let pred = |span: Span| !dictionary.word_list().contains(span_content(source, span));
    nothing_passes(document.word_spans(), pred);
}

/// The words that a lookup found, as suggestions to put them in place.
fn suggestions_of(found: &Vec<(&[char], u8, WordMetadata)>) -> (r: Vec<Suggestion>)
    ensures
        r@.map_values(|s: Suggestion| s.replacement()) == match_views(
            found@,
        ).map_values(|m: MatchView| m.0),
{
    let mut out: Vec<Suggestion> = Vec::new();
    let ghost views = match_views(found@);
    let mut i: usize = 0;
    while i < found.len()
        invariant
            i <= found.len(),
            views == match_views(found@),
            out@.map_values(|s: Suggestion| s.replacement()) == views.take(i as int).map_values(
                |m: MatchView| m.0,
            ),
        decreases found.len() - i,
    {
        let ghost before = out@;
        let word = found[i].0;
        let chars = vstd::slice::slice_to_vec(word);
        out.push(Suggestion::ReplaceWith(chars));
        i += 1;
        proof {
            let now = out@.map_values(|s: Suggestion| s.replacement());
            let want = views.take(i as int).map_values(|m: MatchView| m.0);
            assert(before.map_values(|s: Suggestion| s.replacement()).len() == before.len());
            assert(views.take(i - 1).len() == i - 1);
            assert(now.len() == want.len());
            assert forall|n: int| 0 <= n < now.len() implies now[n] == want[n] by {
                if n < i - 1 {
                    assert(before.map_values(|s: Suggestion| s.replacement())[n] == views.take(
                        i - 1,
                    ).map_values(|m: MatchView| m.0)[n]);
                }
            }
            assert(now =~= want);
        }
    }
    assert(views.take(i as int) =~= views);
    out
}

/// Checks the spelling of every word of `document` against `dictionary`.
///
/// The words are taken in document order. A word whose exact characters the
/// dictionary holds gives nothing. Every other word gives one lint of kind
/// [`LintKind::Spelling`] at the word's span; it suggests, in the lookup's
/// order, the words that a fuzzy lookup within [`SUGGESTION_DISTANCE`] finds
/// with a budget of [`SUGGESTION_BUDGET`]. A word for which nothing is found,
/// or for which the lookup is unsupported, is still flagged, with no
/// suggestion.
pub fn spell_check<D: Dictionary>(document: &Document, dictionary: &D) -> (r: Vec<Lint>)
    ensures
        lint_views(r@) == lints_for(document.source(), *dictionary, document.word_spans()),
{
    let mut lints: Vec<Lint> = Vec::new();
    let words = document.words();
    let ghost source = document.source();
    let ghost unknown = |span: Span| !dictionary.word_list().contains(span_content(source, span));
    let mut i: usize = 0;
    while i < words.len()
        invariant
            i <= words.len(),
            words@ == document.word_spans(),
            document.wf(),
            source == document.source(),
            unknown == (|span: Span| !dictionary.word_list().contains(span_content(source, span))),
            lint_views(lints@) == lints_for(source, *dictionary, words@.take(i as int)),
        decreases words.len() - i,
    {
        let span = words[i];
        proof {
            let next = words@.take(i + 1);
            assert(next.drop_last() =~= words@.take(i as int));
            assert(next.last() == span);
            assert(words@[i as int].within(source.len()));
            reveal(Seq::filter);
        }
        let word_chars = document.get_span_content(span);
        if dictionary.contains_word(word_chars) {
            i += 1;
            continue ;
        }
        let suggestions = match dictionary.fuzzy_match(
            word_chars,
            SUGGESTION_DISTANCE,
            SUGGESTION_BUDGET,
        ) {
            Ok(possibilities) => suggestions_of(&possibilities),
            Err(_) => Vec::new(),
        };
        let ghost before = lints@;
        let lint = Lint { span, lint_kind: LintKind::Spelling, suggestions };
        lints.push(lint);
        i += 1;
        proof {
            let kept_before = words@.take(i - 1).filter(unknown);
            let kept_now = words@.take(i as int).filter(unknown);
            assert(kept_now =~= kept_before.push(span));
            assert(lint.as_view() == lint_for(source, *dictionary, span)) by {
                assert(lint.replacements() =~= replacements_for(
                    *dictionary,
                    span_content(source, span),
                ));
            }
            let now = lint_views(lints@);
            let want = lints_for(source, *dictionary, words@.take(i as int));
            assert(lint_views(before).len() == before.len());
            assert(now.len() == want.len());
            assert forall|n: int| 0 <= n < now.len() implies now[n] == want[n] by {
                if n < before.len() {
                    assert(lint_views(before)[n] == lints_for(
                        source,
                        *dictionary,
                        words@.take(i - 1),
                    )[n]);
                }
            }
            assert(now =~= want);
        }
    }
    assert(words@.take(i as int) =~= words@);
    lints
}

} // verus!
