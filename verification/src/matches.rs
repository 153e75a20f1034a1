use vstd::prelude::*;
use crate::automaton::FuzzyAhoCorasick;
use crate::score::{Score, MAX_PATTERN_BYTES, SCALE_CUBE, SCALE_SQ};
use crate::structs::{governing, pattern_eq, within_limits_spec, NumEdits, Pattern, UniqueId};
use crate::text::{
    byte_len, grapheme_split_post, graphemes_of, gstart, lemma_byte_len_concat,
    lemma_gstart_bounds, lemma_gstart_end, lemma_gstart_nonneg,
};
use vstd::seq_lib::lemma_flatten_concat;

verus! {

/// One approximate occurrence of a pattern in the haystack: the byte span,
/// the matched text, the edit counts, the accumulated penalty and the
/// resulting similarity score.
#[derive(Debug)]
pub struct FuzzyMatch {
    /// Number of insertions used.
    pub insertions: NumEdits,
    /// Number of deletions used.
    pub deletions: NumEdits,
    /// Number of substitutions used.
    pub substitutions: NumEdits,
    /// Number of swaps (transpositions) used.
    pub swaps: NumEdits,
    /// Total number of edits used.
    pub edits: NumEdits,
    /// Index of the matched pattern in the automaton's table.
    pub pattern_index: usize,
    /// A copy of the matched pattern.
    pub pattern: Pattern,
    /// Inclusive start byte index into the haystack.
    pub start: usize,
    /// Exclusive end byte index into the haystack.
    pub end: usize,
    /// Index of the first matched grapheme.
    pub grapheme_start: usize,
    /// Index one past the last matched grapheme.
    pub grapheme_end: usize,
    /// Accumulated penalty, in units of `1/SCALE_SQ`.
    pub penalty: u64,
    /// Similarity of the match, as an exact rational in `[0, 1]`.
    pub similarity: Score,
    /// The matched slice of the haystack.
    pub text: String,
}

/// The identity under which uniqueness selection counts this match.
pub open spec fn spec_unique_id(m: FuzzyMatch) -> UniqueId {
    match m.pattern.custom_unique_id {
        Some(c) => UniqueId::Custom(c),
        None => UniqueId::Automatic(m.pattern_index),
    }
}

/// The match's span designates real graphemes of the haystack `hs`: the byte
/// bounds are the offsets of its grapheme bounds and the text reads exactly
/// the graphemes between them.
pub open spec fn match_span_ok(hs: Seq<char>, m: FuzzyMatch) -> bool {
    &&& m.grapheme_start < m.grapheme_end <= graphemes_of(hs).len()
    &&& m.start == gstart(hs, m.grapheme_start as int)
    &&& m.end == gstart(hs, m.grapheme_end as int)
    &&& m.text@ == graphemes_of(hs).subrange(
        m.grapheme_start as int,
        m.grapheme_end as int,
    ).flatten()
}

/// The numeric bounds the sort comparators need: a well-formed score and
/// byte lengths small enough to compare.
pub open spec fn match_sortable(m: FuzzyMatch) -> bool {
    &&& m.similarity.wf()
    &&& byte_len(m.pattern.pattern@) <= MAX_PATTERN_BYTES
    &&& byte_len(m.text@) <= usize::MAX
}

/// Everything `search_unsorted` promises of a single reported match, beside
/// span validity: the pattern copy is real; the edit counts respect the
/// governing limits and sum up; the similarity is exactly
/// `((L - penalty)/L) * weight` for the pattern's length and weight, and
/// reaches the threshold `t`.
pub open spec fn match_valid(
    eng: FuzzyAhoCorasick,
    hs: Seq<char>,
    t: int,
    m: FuzzyMatch,
) -> bool {
    &&& m.pattern_index < eng.patterns@.len()
    &&& pattern_eq(m.pattern, eng.patterns@[m.pattern_index as int])
    &&& match_span_ok(hs, m)
    &&& m.edits == m.insertions + m.deletions + m.substitutions + m.swaps
    &&& within_limits_spec(
        governing(eng.patterns@[m.pattern_index as int].limits, eng.limits),
        m.edits,
        m.insertions,
        m.deletions,
        m.substitutions,
        m.swaps,
    )
    &&& m.penalty <= m.pattern.grapheme_len * SCALE_SQ
    &&& m.similarity.num == (m.pattern.grapheme_len * SCALE_SQ - m.penalty) * m.pattern.weight
    &&& m.similarity.den == m.pattern.grapheme_len * SCALE_CUBE
    &&& m.similarity.spec_at_least(t)
    &&& m.similarity.wf()
}

/// An ordered list of matches over one haystack; every selector operates on
/// this list in place.
#[derive(Debug)]
pub struct FuzzyMatches {
    /// The haystack the matches point into.
    pub haystack: String,
    /// The haystack's graphemes with their byte offsets.
    pub graphemes: Vec<(usize, String)>,
    /// The matches.
    pub inner: Vec<FuzzyMatch>,
}

impl FuzzyMatches {
    /// The stored graphemes really segment the stored haystack, and every
    /// match points at a valid grapheme span of it.
    pub open spec fn wf(self) -> bool {
        &&& grapheme_split_post(self.haystack@, self.graphemes@)
        &&& forall|k: int|
            0 <= k < self.inner@.len() ==> match_span_ok(self.haystack@, #[trigger] self.inner@[k])
        &&& forall|k: int|
            0 <= k < self.inner@.len() ==> match_sortable(#[trigger] self.inner@[k])
    }

    /// Number of matches held.
    pub fn len(&self) -> (r: usize)
        ensures
            r == self.inner@.len(),
    {
        self.inner.len()
    }

    /// Whether no match is held.
    pub fn is_empty(&self) -> (r: bool)
        ensures
            r == (self.inner@.len() == 0),
    {
        self.inner.is_empty()
    }

    /// The byte spans of the matches, in order.
    pub fn matched_spans(&self) -> (r: Vec<(usize, usize)>)
        ensures
            r@.len() == self.inner@.len(),
            forall|k: int|
                0 <= k < r@.len() ==> #[trigger] r@[k] == (
                    self.inner@[k].start,
                    self.inner@[k].end,
                ),
    {
        let mut r: Vec<(usize, usize)> = Vec::new();
        let mut k: usize = 0;
        while k < self.inner.len()
            invariant
                0 <= k <= self.inner@.len(),
                r@.len() == k,
                forall|q: int|
                    0 <= q < k ==> #[trigger] r@[q] == (self.inner@[q].start, self.inner@[q].end),
            decreases self.inner@.len() - k,
        {
            r.push((self.inner[k].start, self.inner[k].end));
            k = k + 1;
        }
        r
    }

    /// The matched substrings, in order.
    pub fn matched_strings(&self) -> (r: Vec<String>)
        ensures
            r@.len() == self.inner@.len(),
            forall|k: int| 0 <= k < r@.len() ==> (#[trigger] r@[k])@ == self.inner@[k].text@,
    {
        let mut r: Vec<String> = Vec::new();
        let mut k: usize = 0;
        while k < self.inner.len()
            invariant
                0 <= k <= self.inner@.len(),
                r@.len() == k,
                forall|q: int| 0 <= q < k ==> (#[trigger] r@[q])@ == self.inner@[q].text@,
            decreases self.inner@.len() - k,
        {
            r.push(self.inner[k].text.clone());
            k = k + 1;
        }
        r
    }
}

/// Copies a match field by field; the copy carries the same values.
pub(crate) fn copy_match(m: &FuzzyMatch) -> (r: FuzzyMatch)
    ensures
        r == *m,
{
    FuzzyMatch {
        insertions: m.insertions,
        deletions: m.deletions,
        substitutions: m.substitutions,
        swaps: m.swaps,
        edits: m.edits,
        pattern_index: m.pattern_index,
        pattern: copy_pattern(&m.pattern),
        start: m.start,
        end: m.end,
        grapheme_start: m.grapheme_start,
        grapheme_end: m.grapheme_end,
        penalty: m.penalty,
        similarity: m.similarity,
        text: m.text.clone(),
    }
}

/// Copies a pattern field by field; the copy carries the same values.
pub(crate) fn copy_pattern(p: &Pattern) -> (r: Pattern)
    ensures
        r == *p,
{
    Pattern {
        grapheme_len: p.grapheme_len,
        pattern: p.pattern.clone(),
        custom_unique_id: p.custom_unique_id,
        weight: p.weight,
        limits: p.limits,
    }
}

/// Under a valid span, the matched text occupies exactly the bytes between
/// the match's byte bounds; in particular the span is nonempty and ends
/// within the haystack.
pub proof fn lemma_match_span_bytes(hs: Seq<char>, g: Seq<(usize, String)>, m: FuzzyMatch)
    requires
        grapheme_split_post(hs, g),
        match_span_ok(hs, m),
    ensures
        0 <= m.start < m.end <= byte_len(hs),
        byte_len(m.text@) == m.end - m.start,
{
    let gs = graphemes_of(hs);
    let ms = m.grapheme_start as int;
    let me = m.grapheme_end as int;
    lemma_gstart_bounds(hs, g, ms, me);
    lemma_gstart_end(hs, g, me);
    lemma_gstart_nonneg(hs, ms);
    assert(gs.subrange(0, me) =~= gs.subrange(0, ms) + gs.subrange(ms, me));
    lemma_flatten_concat(gs.subrange(0, ms), gs.subrange(ms, me));
    lemma_byte_len_concat(gs.subrange(0, ms).flatten(), gs.subrange(ms, me).flatten());
}

} // verus!
