use vstd::prelude::*;
use crate::automaton::FuzzyAhoCorasick;
use crate::matches::{lemma_match_span_bytes, match_valid, FuzzyMatch};
use crate::search::{exact_complete, exact_occurrence, pattern_labels};
use crate::score::{lemma_mul_bound, Score, MAX_SCORE_DEN, SCALE, SCALE_CUBE, SCALE_SQ};
use crate::select::{disjoint_spans, pairwise_disjoint, unique_ids};
use crate::structs::governing;
use crate::text::{byte_len, grapheme_split_post, graphemes_of};

verus! {

/// Span validity: every match a search reports occupies a real, nonempty,
/// grapheme-aligned byte span of the haystack, its text reads exactly the
/// graphemes of that span, and the text's byte length is the span's width.
pub proof fn lemma_span_validity(
    eng: FuzzyAhoCorasick,
    hs: Seq<char>,
    g: Seq<(usize, String)>,
    t: int,
    m: FuzzyMatch,
)
    requires
        grapheme_split_post(hs, g),
        match_valid(eng, hs, t, m),
    ensures
        0 <= m.start < m.end <= byte_len(hs),
        m.text@ == graphemes_of(hs).subrange(m.grapheme_start as int, m.grapheme_end as int).flatten(),
        byte_len(m.text@) == m.end - m.start,
{
    lemma_match_span_bytes(hs, g, m);
}

/// Threshold: every reported match scores at least the caller's threshold.
pub proof fn lemma_threshold(eng: FuzzyAhoCorasick, hs: Seq<char>, t: int, m: FuzzyMatch)
    requires
        match_valid(eng, hs, t, m),
    ensures
        m.similarity.spec_at_least(t),
{
}

/// Limit compliance: every reported match respects the limits that govern
/// its pattern; when no limits are configured at all, every edit count is
/// zero.
pub proof fn lemma_limit_compliance(eng: FuzzyAhoCorasick, hs: Seq<char>, t: int, m: FuzzyMatch)
    requires
        match_valid(eng, hs, t, m),
    ensures
        crate::structs::within_limits_spec(
            governing(eng.patterns@[m.pattern_index as int].limits, eng.limits),
            m.edits,
            m.insertions,
            m.deletions,
            m.substitutions,
            m.swaps,
        ),
        (eng.patterns@[m.pattern_index as int].limits is None && eng.limits is None) ==> m.edits
            == 0 && m.insertions == 0 && m.deletions == 0 && m.substitutions == 0 && m.swaps == 0,
{
}

/// Edit sum: the total edit count of a reported match is the sum of its four
/// kinds.
pub proof fn lemma_edit_sum(eng: FuzzyAhoCorasick, hs: Seq<char>, t: int, m: FuzzyMatch)
    requires
        match_valid(eng, hs, t, m),
    ensures
        m.edits == m.insertions + m.deletions + m.substitutions + m.swaps,
{
}

/// Similarity formula: the reported similarity is exactly
/// `((L - penalty) / L) * weight` for the matched pattern's grapheme length
/// `L` and weight, as the rational with numerator
/// `(L*SCALE_SQ - penalty) * weight` and denominator `L*SCALE_CUBE`.
pub proof fn lemma_similarity_formula(eng: FuzzyAhoCorasick, hs: Seq<char>, t: int, m: FuzzyMatch)
    requires
        match_valid(eng, hs, t, m),
    ensures
        m.penalty <= m.pattern.grapheme_len * SCALE_SQ,
        m.similarity.num == (m.pattern.grapheme_len * SCALE_SQ - m.penalty) * m.pattern.weight,
        m.similarity.den == m.pattern.grapheme_len * SCALE_CUBE,
        m.pattern.grapheme_len == eng.patterns@[m.pattern_index as int].grapheme_len,
        m.pattern.weight == eng.patterns@[m.pattern_index as int].weight,
{
}

/// Non-overlap: any two distinct matches of a non-overlapping selection
/// either touch or lie apart; one ends before the other starts.
pub proof fn lemma_non_overlap(ms: Seq<FuzzyMatch>, k1: int, k2: int)
    requires
        pairwise_disjoint(ms),
        0 <= k1 < ms.len(),
        0 <= k2 < ms.len(),
        k1 != k2,
    ensures
        ms[k1].end <= ms[k2].start || ms[k2].end <= ms[k1].start,
{
    if k1 < k2 {
        assert(disjoint_spans(ms[k1], ms[k2]));
    } else {
        assert(disjoint_spans(ms[k2], ms[k1]));
    }
}

/// Uniqueness: any two distinct matches of a pattern-unique selection carry
/// distinct identities (the custom id where present, the pattern index
/// otherwise).
pub proof fn lemma_uniqueness(ms: Seq<FuzzyMatch>, k1: int, k2: int)
    requires
        unique_ids(ms),
        0 <= k1 < ms.len(),
        0 <= k2 < ms.len(),
        k1 != k2,
    ensures
        crate::matches::spec_unique_id(ms[k1]) != crate::matches::spec_unique_id(ms[k2]),
{
}

/// Monotone threshold, per match: a match that is valid for a search at a
/// higher threshold is valid for a search at any lower threshold. The
/// inclusion of whole result sets follows for exact occurrences from
/// exact-match admission; for fuzzy matches it also needs completeness of
/// the exploration, which is checked by tests.
pub proof fn lemma_threshold_monotone(
    eng: FuzzyAhoCorasick,
    hs: Seq<char>,
    t1: int,
    t2: int,
    m: FuzzyMatch,
)
    requires
        0 <= t1 <= t2,
        match_valid(eng, hs, t2, m),
    ensures
        match_valid(eng, hs, t1, m),
{
    lemma_mul_bound(t1, m.similarity.den as int, t2);
}

/// Exact match admits, scoring side: a match of a full-weight pattern that
/// accumulated no penalty has similarity exactly 1 and reaches every
/// admissible threshold. That the search reports such a match is
/// `lemma_exact_admission` below.
pub proof fn lemma_exact_score_admits(s: Score, len: nat, t: int)
    requires
        1 <= len,
        s.num == (len * SCALE_SQ - 0) * SCALE,
        s.den == len * SCALE_CUBE,
        0 < s.den <= MAX_SCORE_DEN,
        0 <= t <= SCALE,
    ensures
        s.num == s.den,
        s.spec_at_least(t),
{
    assert((len * SCALE_SQ) * SCALE == len * SCALE_CUBE) by (nonlinear_arith);
    lemma_mul_bound(t, s.den as int, SCALE as int);
}

/// Exact match admits: under exact-match admission — which every search
/// ensures of its result — a literal occurrence of a pattern whose weight
/// reaches the threshold is reported as a zero-edit match over exactly that
/// grapheme span, with the pattern's full-weight similarity; similarity
/// exactly 1 when the weight is 1.
pub proof fn lemma_exact_admission(
    eng: FuzzyAhoCorasick,
    hs: Seq<char>,
    t: int,
    ms: Seq<FuzzyMatch>,
    p: int,
    s: int,
)
    requires
        exact_complete(eng, hs, t, ms),
        exact_occurrence(eng, hs, t, p, s),
        forall|k: int| 0 <= k < ms.len() ==> match_valid(eng, hs, t, #[trigger] ms[k]),
    ensures
        exists|k: int|
            {
                &&& 0 <= k < ms.len()
                &&& (#[trigger] ms[k]).pattern_index == p
                &&& ms[k].grapheme_start == s
                &&& ms[k].grapheme_end == s + pattern_labels(
                    eng.case_insensitive,
                    eng.patterns@[p].pattern@,
                ).len()
                &&& ms[k].edits == 0
                &&& ms[k].similarity.num == (ms[k].pattern.grapheme_len * SCALE_SQ)
                    * eng.patterns@[p].weight
                &&& (eng.patterns@[p].weight == SCALE ==> ms[k].similarity.num
                    == ms[k].similarity.den)
            },
{
    assert(crate::search::exact_reported(eng, hs, ms, p, s));
    let k = choose|k: int|
        0 <= k < ms.len() && (#[trigger] ms[k]).pattern_index == p && ms[k].grapheme_start == s
            && ms[k].grapheme_end == s + pattern_labels(
            eng.case_insensitive,
            eng.patterns@[p].pattern@,
        ).len() && ms[k].edits == 0 && ms[k].penalty == 0;
    let m = ms[k];
    assert(match_valid(eng, hs, t, m));
    if eng.patterns@[p].weight == SCALE {
        let ll = m.pattern.grapheme_len as int;
        assert((ll * SCALE_SQ) * SCALE == ll * SCALE_CUBE) by (nonlinear_arith);
    }
}

} // verus!
