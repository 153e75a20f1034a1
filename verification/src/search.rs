use vstd::prelude::*;
use crate::automaton::{trans_lookup, FuzzyAhoCorasick};
use crate::builder::lemma_trans_lookup_in_range;
use crate::matches::{copy_pattern, lemma_match_span_bytes, match_sortable, match_span_ok, match_valid, FuzzyMatch, FuzzyMatches};
use crate::score::{score_of, MAX_GRAPHEMES, MAX_PENALTY, SCALE, SCALE_CUBE, SCALE_SQ};
use crate::structs::pattern_wf;
use crate::select::{
    default_le, greedy_le, lemma_valid_transport, nolap_fold, nolap_unique_fold,
    pairwise_disjoint, sorted_by_start, unique_ids,
};
use crate::text::{
    concat_range, grapheme_split, grapheme_split_post, graphemes_of, gstart, lemma_gstart_end,
    lemma_gstart_inj, lemma_match_text_bound, lowercase, lower_of, str_byte_len, strs_of,
};
use vstd::string::StrSliceExecFns;

verus! {

broadcast use vstd::seq_lib::group_to_multiset_ensures;

/// Cap on the breadth-first steps one seed position may spend. The cap is far
/// beyond what bounded edit limits can reach; it makes the exploration's
/// termination evident to the verifier and bounds the worst case when a
/// caller configures unbounded deletions at zero cost. A search that exhausts
/// it keeps the sound subset gathered so far; the exact-match admission pass
/// runs before the exploration and is never affected.
pub const SEARCH_BUDGET: usize = 10000000;

/// Largest accumulated penalty a live state can carry: a state only spawns
/// children while its penalty is at most `MAX_GRAPHEMES * SCALE_SQ`, and one
/// edit adds at most `MAX_PENALTY * SCALE`.
pub const PENALTY_BOUND: u64 = 3560000;

/// One state of the breadth-first exploration: the automaton node, the index
/// of the next haystack grapheme, the matched window, the accumulated
/// penalty, and the edit counts.
#[derive(Clone, Copy)]
pub(crate) struct State {
    pub(crate) node: usize,
    pub(crate) j: usize,
    pub(crate) matched_start: usize,
    pub(crate) matched_end: usize,
    pub(crate) penalties: u64,
    pub(crate) edits: usize,
    pub(crate) insertions: usize,
    pub(crate) deletions: usize,
    pub(crate) substitutions: usize,
    pub(crate) swaps: usize,
}

/// The bounds every enqueued state satisfies: the node is in the automaton,
/// the window sits before the cursor inside the haystack, the penalty and the
/// edit counts are small enough for the arithmetic, and the total count is
/// the sum of the kinds.
pub(crate) open spec fn state_ok(st: State, nn: int, n: int, cbound: int) -> bool {
    &&& st.node < nn
    &&& st.matched_start <= st.matched_end <= st.j <= n
    &&& st.penalties <= PENALTY_BOUND
    &&& st.edits == st.insertions + st.deletions + st.substitutions + st.swaps
    &&& st.insertions <= cbound
    &&& st.deletions <= cbound
    &&& st.substitutions <= cbound
    &&& st.swaps <= cbound
    &&& cbound <= SEARCH_BUDGET
}

/// Two matches report the same span of the same pattern.
pub open spec fn same_key(a: FuzzyMatch, b: FuzzyMatch) -> bool {
    a.start == b.start && a.end == b.end && a.pattern_index == b.pattern_index
}

/// No two matches of the list share a `(start, end, pattern_index)` key.
pub open spec fn keys_unique(ms: Seq<FuzzyMatch>) -> bool {
    forall|k1: int, k2: int|
        0 <= k1 < k2 < ms.len() ==> !same_key(#[trigger] ms[k1], #[trigger] ms[k2])
}

/// The label the search compares at one grapheme position: the grapheme
/// itself, lowercased when the engine is case-insensitive.
pub open spec fn search_label(ci: bool, g: Seq<char>) -> Seq<char> {
    if ci {
        lower_of(g)
    } else {
        g
    }
}

/// The edge labels a pattern contributes to the trie, in order: its graphemes
/// under the engine's case folding.
pub open spec fn pattern_labels(ci: bool, s: Seq<char>) -> Seq<Seq<char>> {
    Seq::new(graphemes_of(s).len(), |k: int| search_label(ci, graphemes_of(s)[k]))
}

/// Pattern `p` occurs literally (after case folding) at grapheme position `s`
/// of the haystack, and its full-weight score reaches the threshold `t`.
pub open spec fn exact_occurrence(
    eng: FuzzyAhoCorasick,
    hs: Seq<char>,
    t: int,
    p: int,
    s: int,
) -> bool {
    let labels = pattern_labels(eng.case_insensitive, eng.patterns@[p].pattern@);
    &&& 0 <= p < eng.patterns@.len()
    &&& 0 < labels.len()
    &&& 0 <= s
    &&& s + labels.len() <= graphemes_of(hs).len()
    &&& (forall|k: int|
        0 <= k < labels.len() ==> search_label(eng.case_insensitive, graphemes_of(hs)[s + k])
            == #[trigger] labels[k])
    &&& t <= eng.patterns@[p].weight
}

/// The list holds the zero-edit match of pattern `p` over its occurrence at
/// grapheme position `s`.
pub open spec fn exact_reported(
    eng: FuzzyAhoCorasick,
    hs: Seq<char>,
    ms: Seq<FuzzyMatch>,
    p: int,
    s: int,
) -> bool {
    exists|k: int|
        0 <= k < ms.len() && (#[trigger] ms[k]).pattern_index == p && ms[k].grapheme_start == s
            && ms[k].grapheme_end == s + pattern_labels(
            eng.case_insensitive,
            eng.patterns@[p].pattern@,
        ).len() && ms[k].edits == 0 && ms[k].penalty == 0
}

/// Exact-match admission: every literal occurrence of a pattern whose weight
/// reaches the threshold is reported, with zero edits, whatever the beam or
/// the work cap did to the rest of the exploration.
pub open spec fn exact_complete(
    eng: FuzzyAhoCorasick,
    hs: Seq<char>,
    t: int,
    ms: Seq<FuzzyMatch>,
) -> bool {
    forall|p: int, s: int|
        #[trigger] exact_occurrence(eng, hs, t, p, s) ==> exact_reported(eng, hs, ms, p, s)
}

/// Every entry carries zero edits and zero penalty.
pub(crate) open spec fn zero_edit_entries(ms: Seq<FuzzyMatch>) -> bool {
    forall|k: int|
        0 <= k < ms.len() ==> (#[trigger] ms[k]).edits == 0 && ms[k].penalty == 0
            && ms[k].insertions == 0 && ms[k].deletions == 0 && ms[k].substitutions == 0
            && ms[k].swaps == 0
}

/// Inserts `m` into the keyed result table: the table holds at most one match
/// per `(start, end, pattern_index)` key and keeps the higher similarity.
/// Existing entries survive unless a strictly better candidate for their key
/// replaces them, and afterwards some entry for `m`'s key scores at least `m`.
#[verifier::loop_isolation(false)]
fn record_match(
    best: &mut Vec<FuzzyMatch>,
    m: FuzzyMatch,
    eng: &FuzzyAhoCorasick,
    Ghost(hs): Ghost<Seq<char>>,
    Ghost(t): Ghost<int>,
)
    requires
        match_valid(*eng, hs, t, m),
        forall|k: int|
            0 <= k < old(best)@.len() ==> match_valid(*eng, hs, t, #[trigger] old(best)@[k]),
        keys_unique(old(best)@),
    ensures
        forall|k: int|
            0 <= k < final(best)@.len() ==> match_valid(*eng, hs, t, #[trigger] final(best)@[k]),
        keys_unique(final(best)@),
        forall|k: int|
            #![trigger old(best)@[k]]
            0 <= k < old(best)@.len() ==> exists|k2: int|
                0 <= k2 < final(best)@.len() && same_key(old(best)@[k], #[trigger] final(best)@[k2])
                    && (final(best)@[k2] == old(best)@[k]
                    || old(best)@[k].similarity.spec_lt(final(best)@[k2].similarity)),
        forall|k2: int|
            0 <= k2 < final(best)@.len() ==> #[trigger] final(best)@[k2] == m
                || old(best)@.contains(final(best)@[k2]),
        exists|k2: int|
            0 <= k2 < final(best)@.len() && same_key(#[trigger] final(best)@[k2], m)
                && (final(best)@[k2] == m || m.similarity.spec_le(final(best)@[k2].similarity)),
{
    let mut k: usize = 0;
    while k < best.len()
        invariant
            0 <= k <= best@.len(),
            best@ == old(best)@,
            forall|q: int| 0 <= q < k ==> !same_key(#[trigger] best@[q], m),
        decreases best@.len() - k,
    {
        if best[k].start == m.start && best[k].end == m.end && best[k].pattern_index
            == m.pattern_index {
            if best[k].similarity.lt(&m.similarity) {
                let ghost before = best@;
                best[k] = m;
                proof {
                    assert(best@ == before.update(k as int, m));
                    assert forall|q: int|
                        #![trigger before[q]]
                        0 <= q < before.len() implies exists|k2: int|
                        0 <= k2 < best@.len() && same_key(before[q], #[trigger] best@[k2]) && (
                        best@[k2] == before[q] || before[q].similarity.spec_lt(
                            best@[k2].similarity,
                        )) by {
                        if q != k {
                            assert(best@[q] == before[q]);
                        } else {
                            assert(best@[k as int] == m);
                        }
                    }
                    assert forall|k2: int|
                        0 <= k2 < best@.len() implies #[trigger] best@[k2] == m
                        || before.contains(best@[k2]) by {
                        if k2 != k {
                            assert(best@[k2] == before[k2]);
                        }
                    }
                    assert(best@[k as int] == m);
                }
            } else {
                proof {
                    assert(best@[k as int] == old(best)@[k as int]);
                    assert(same_key(best@[k as int], m));
                    assert(forall|k2: int|
                        0 <= k2 < best@.len() ==> #[trigger] best@[k2] == old(best)@[k2]);
                    assert(forall|k2: int|
                        0 <= k2 < best@.len() ==> old(best)@.contains(#[trigger] best@[k2]));
                }
            }
            return ;
        }
        k = k + 1;
    }
    let ghost before = best@;
    best.push(m);
    proof {
        assert(best@ == before.push(m));
        assert forall|q: int|
            #![trigger before[q]]
            0 <= q < before.len() implies exists|k2: int|
            0 <= k2 < best@.len() && same_key(before[q], #[trigger] best@[k2]) && (best@[k2]
                == before[q] || before[q].similarity.spec_lt(best@[k2].similarity)) by {
            assert(best@[q] == before[q]);
        }
        assert(best@[best@.len() - 1] == m);
        assert forall|k2: int|
            0 <= k2 < best@.len() implies #[trigger] best@[k2] == m || before.contains(
            best@[k2],
        ) by {
            if k2 < before.len() {
                assert(best@[k2] == before[k2]);
            }
        }
    }
}

/// Evolving the result table as `record_match` does — every entry kept
/// identical or replaced by a strictly better candidate for its key — never
/// loses one reported exact occurrence: a zero-penalty entry is already the
/// best its key can score.
proof fn lemma_one_claim_preserved(
    eng: FuzzyAhoCorasick,
    hs: Seq<char>,
    t: int,
    olds: Seq<FuzzyMatch>,
    news: Seq<FuzzyMatch>,
    p: int,
    s: int,
)
    requires
        forall|k: int| 0 <= k < olds.len() ==> match_valid(eng, hs, t, #[trigger] olds[k]),
        forall|k: int| 0 <= k < news.len() ==> match_valid(eng, hs, t, #[trigger] news[k]),
        forall|k: int|
            #![trigger olds[k]]
            0 <= k < olds.len() ==> exists|k2: int|
                0 <= k2 < news.len() && same_key(olds[k], #[trigger] news[k2]) && (news[k2]
                    == olds[k] || olds[k].similarity.spec_lt(news[k2].similarity)),
        exact_reported(eng, hs, olds, p, s),
    ensures
        exact_reported(eng, hs, news, p, s),
{
    let k = choose|k: int|
        0 <= k < olds.len() && (#[trigger] olds[k]).pattern_index == p && olds[k].grapheme_start
            == s && olds[k].grapheme_end == s + pattern_labels(
            eng.case_insensitive,
            eng.patterns@[p].pattern@,
        ).len() && olds[k].edits == 0 && olds[k].penalty == 0;
    let e = olds[k];
    let k2 = choose|k2: int|
        0 <= k2 < news.len() && same_key(e, #[trigger] news[k2]) && (news[k2] == e
            || e.similarity.spec_lt(news[k2].similarity));
    let e2 = news[k2];
    if e2 != e {
        lemma_same_key_no_better(eng, hs, t, e, e2);
    }
    assert(news[k2] == e);
}

/// The same, for every reported occurrence at once.
proof fn lemma_claims_preserved(
    eng: FuzzyAhoCorasick,
    hs: Seq<char>,
    t: int,
    olds: Seq<FuzzyMatch>,
    news: Seq<FuzzyMatch>,
)
    requires
        forall|k: int| 0 <= k < olds.len() ==> match_valid(eng, hs, t, #[trigger] olds[k]),
        forall|k: int| 0 <= k < news.len() ==> match_valid(eng, hs, t, #[trigger] news[k]),
        forall|k: int|
            #![trigger olds[k]]
            0 <= k < olds.len() ==> exists|k2: int|
                0 <= k2 < news.len() && same_key(olds[k], #[trigger] news[k2]) && (news[k2]
                    == olds[k] || olds[k].similarity.spec_lt(news[k2].similarity)),
        exact_complete(eng, hs, t, olds),
    ensures
        exact_complete(eng, hs, t, news),
{
    assert forall|p: int, s: int| #[trigger] exact_occurrence(eng, hs, t, p, s) implies
        exact_reported(eng, hs, news, p, s) by {
        lemma_one_claim_preserved(eng, hs, t, olds, news, p, s);
    }
}

/// A valid zero-penalty match scores at least any other valid match for the
/// same key: the two share the pattern, and the penalty only lowers the
/// numerator.
proof fn lemma_same_key_no_better(
    eng: FuzzyAhoCorasick,
    hs: Seq<char>,
    t: int,
    e: FuzzyMatch,
    e2: FuzzyMatch,
)
    requires
        match_valid(eng, hs, t, e),
        match_valid(eng, hs, t, e2),
        same_key(e, e2),
        e.penalty == 0,
    ensures
        !e.similarity.spec_lt(e2.similarity),
{
    let lw = eng.patterns@[e.pattern_index as int];
    assert(e.pattern.grapheme_len == lw.grapheme_len);
    assert(e2.pattern.grapheme_len == lw.grapheme_len);
    let ll = lw.grapheme_len as int;
    let w = lw.weight as int;
    assert(e2.similarity.num <= e.similarity.num) by (nonlinear_arith)
        requires
            e.similarity.num == (ll * SCALE_SQ - 0) * w,
            e2.similarity.num == (ll * SCALE_SQ - e2.penalty) * w,
            e2.penalty >= 0,
            w >= 0,
    ;
    assert(e.similarity.den == e2.similarity.den);
    assert(!(e.similarity.num * e2.similarity.den < e2.similarity.num * e.similarity.den))
        by (nonlinear_arith)
        requires
            e2.similarity.num <= e.similarity.num,
            e.similarity.den == e2.similarity.den,
            e.similarity.den >= 0,
    ;
}

/// A zero-penalty score reaches a threshold exactly when the threshold does
/// not pass the weight.
proof fn lemma_zero_penalty_gate(ll: int, w: int, t: int)
    requires
        1 <= ll,
        0 <= w,
        0 <= t,
    ensures
        ((ll * SCALE_SQ - 0) * w) * SCALE >= t * (ll * SCALE_CUBE) <==> t <= w,
{
    assert(((ll * SCALE_SQ) * w) * SCALE == (ll * SCALE_CUBE) * w) by (nonlinear_arith);
    assert((ll * SCALE_CUBE) * w >= t * (ll * SCALE_CUBE) <==> t <= w) by (nonlinear_arith)
        requires
            1 <= ll,
            0 <= w,
            0 <= t,
    ;
}

/// Exact-match admission survives any permutation of the match list.
proof fn lemma_exact_complete_permuted(
    eng: FuzzyAhoCorasick,
    hs: Seq<char>,
    t: int,
    a: Seq<FuzzyMatch>,
    b: Seq<FuzzyMatch>,
)
    requires
        a.to_multiset() == b.to_multiset(),
        exact_complete(eng, hs, t, a),
    ensures
        exact_complete(eng, hs, t, b),
{
    assert forall|p: int, s: int| #[trigger] exact_occurrence(eng, hs, t, p, s) implies
        exact_reported(eng, hs, b, p, s) by {
        assert(exact_reported(eng, hs, a, p, s));
        let k = choose|k: int|
            0 <= k < a.len() && (#[trigger] a[k]).pattern_index == p && a[k].grapheme_start == s
                && a[k].grapheme_end == s + pattern_labels(
                eng.case_insensitive,
                eng.patterns@[p].pattern@,
            ).len() && a[k].edits == 0 && a[k].penalty == 0;
        let v = a[k];
        assert(a.contains(v));
        assert(a.to_multiset().contains(v));
        assert(b.to_multiset().contains(v));
        assert(b.contains(v));
        let k2 = choose|k2: int| 0 <= k2 < b.len() && b[k2] == v;
        assert(exact_reported(eng, hs, b, p, s));
    }
}

/// `x` is one of the states of `orig[from..]`.
pub(crate) open spec fn from_tail_of(x: State, orig: Seq<State>, from: int) -> bool {
    exists|q: int| from <= q < orig.len() && x == orig[q]
}

/// Sorts `queue[from..]` by ascending penalty; the tail afterwards holds only
/// states that were in the tail before, and the head is untouched.
#[verifier::loop_isolation(false)]
fn sort_states_tail(queue: &mut Vec<State>, from: usize)
    requires
        from <= old(queue)@.len(),
    ensures
        final(queue)@.len() == old(queue)@.len(),
        forall|k: int| 0 <= k < from ==> final(queue)@[k] == old(queue)@[k],
        forall|k: int|
            from <= k < final(queue)@.len() ==> from_tail_of(
                #[trigger] final(queue)@[k],
                old(queue)@,
                from as int,
            ),
{
    let ghost orig = queue@;
    let len = queue.len();
    if from >= len {
        return ;
    }
    proof {
        assert forall|k: int| from <= k < queue@.len() implies from_tail_of(
            #[trigger] queue@[k],
            orig,
            from as int,
        ) by {
            assert(from <= k < orig.len() && queue@[k] == orig[k]);
        }
    }
    let mut i: usize = from + 1;
    while i < len
        invariant
            from < i <= len == queue@.len(),
            forall|k: int| 0 <= k < from ==> queue@[k] == orig[k],
            forall|k: int|
                from <= k < queue@.len() ==> from_tail_of(#[trigger] queue@[k], orig, from as int),
        decreases len - i,
    {
        let mut j: usize = i;
        while j > from && queue[j - 1].penalties > queue[j].penalties
            invariant
                from <= j <= i < len == queue@.len(),
                forall|k: int| 0 <= k < from ==> queue@[k] == orig[k],
                forall|k: int|
                    from <= k < queue@.len() ==> from_tail_of(
                        #[trigger] queue@[k],
                        orig,
                        from as int,
                    ),
            decreases j,
        {
            let a = queue[j - 1];
            let b = queue[j];
            queue[j - 1] = b;
            queue[j] = a;
            j = j - 1;
        }
        i = i + 1;
    }
}

impl FuzzyAhoCorasick {
    /// Core fuzzy search: explores, from every grapheme position, all
    /// transitions the edit model allows (exact, substitution, swap,
    /// insertion, deletion), accumulating penalties, and keeps the best
    /// candidate per `(start, end, pattern)` key. The result is unsorted.
    ///
    /// Every reported match points at a nonempty grapheme-aligned byte span
    /// of the haystack whose text it carries, respects the governing edit
    /// limits, sums its edit counts, carries the exact similarity
    /// `((L - penalty)/L) * weight` of its pattern, and reaches the
    /// threshold.
    #[verifier::loop_isolation(false)]
    pub fn search_unsorted(&self, haystack: &str, similarity_threshold: u32) -> (r: FuzzyMatches)
        requires
            self.wf(),
        ensures
            r.wf(),
            r.haystack@ == haystack@,
            forall|k: int|
                0 <= k < r.inner@.len() ==> match_valid(
                    *self,
                    haystack@,
                    similarity_threshold as int,
                    #[trigger] r.inner@[k],
                ),
            keys_unique(r.inner@),
            exact_complete(*self, haystack@, similarity_threshold as int, r.inner@),
            similarity_threshold > SCALE ==> r.inner@.len() == 0,
    {
        let ghost hs = haystack@;
        let ghost t = similarity_threshold as int;
        let ghost nn = self.nodes@.len() as int;
        let ghost np = self.patterns@.len() as int;

        let g = grapheme_split(haystack);
        let hlen = str_byte_len(haystack);
        let n = g.len();
        proof {
            assert(strs_of(g@) =~= graphemes_of(hs));
        }
        if similarity_threshold > SCALE {
            // A threshold above 1.0 admits nothing: every similarity is at
            // most the pattern's weight, which is at most 1.0.
            proof {
                assert forall|p: int, sd: int| #[trigger] exact_occurrence(*self, hs, t, p, sd)
                    implies false by {
                    assert(pattern_wf(self.patterns@[p]));
                }
            }
            return FuzzyMatches {
                haystack: haystack.to_owned(),
                graphemes: g,
                inner: Vec::new(),
            };
        }
        if n == 0 {
            proof {
                assert forall|p: int, sd: int| #[trigger] exact_occurrence(*self, hs, t, p, sd)
                    implies false by {
                    assert(pattern_labels(
                        self.case_insensitive,
                        self.patterns@[p].pattern@,
                    ).len() > 0);
                }
            }
            return FuzzyMatches {
                haystack: haystack.to_owned(),
                graphemes: g,
                inner: Vec::new(),
            };
        }

        // The haystack graphemes the automaton compares against: lowercased
        // when the engine is case-insensitive.
        let mut text_chars: Vec<String> = Vec::new();
        let mut jj: usize = 0;
        while jj < n
            invariant
                jj <= n,
                text_chars@.len() == jj,
                forall|q: int| 0 <= q < jj ==> (#[trigger] text_chars@[q])@.len() > 0,
                forall|q: int|
                    0 <= q < jj ==> (#[trigger] text_chars@[q])@ == search_label(
                        self.case_insensitive,
                        graphemes_of(hs)[q],
                    ),
            decreases n - jj,
        {
            if self.case_insensitive {
                text_chars.push(lowercase(g[jj].1.as_str()));
            } else {
                let c = g[jj].1.clone();
                text_chars.push(c);
            }
            jj = jj + 1;
        }

        let mut best: Vec<FuzzyMatch> = Vec::new();

        let lmax = self.max_pattern_grapheme_len;
        proof {
            assert((lmax as u64) * SCALE_SQ <= 2560000) by (nonlinear_arith)
                requires
                    1 <= lmax <= MAX_GRAPHEMES,
            ;
        }
        let lmax_units: u64 = (lmax as u64) * SCALE_SQ;
        proof {
            assert((similarity_threshold as u64) * lmax_units <= 256000000) by (nonlinear_arith)
                requires
                    similarity_threshold <= SCALE,
                    lmax_units <= 2560000,
            ;
        }
        let prune_rhs: u64 = (similarity_threshold as u64) * lmax_units;

        // Exact-match admission: report every literal occurrence of a pattern
        // whose weight reaches the threshold, with zero edits, before the
        // exploration begins. The breadth-first walk re-derives these
        // candidates where the beam and the work cap leave them; the keyed
        // table keeps one copy either way.
        let mut pi: usize = 0;
        while pi < self.patterns.len()
            invariant
                pi <= np,
                forall|k: int|
                    0 <= k < best@.len() ==> match_valid(*self, hs, t, #[trigger] best@[k]),
                keys_unique(best@),
                zero_edit_entries(best@),
                forall|pp: int, sd: int|
                    #![trigger exact_occurrence(*self, hs, t, pp, sd)]
                    0 <= pp < pi && exact_occurrence(*self, hs, t, pp, sd) ==> exact_reported(
                        *self,
                        hs,
                        best@,
                        pp,
                        sd,
                    ),
            decreases np - pi,
        {
            let ghost pat_view = self.patterns@[pi as int].pattern@;
            let ghost labels_spec = pattern_labels(self.case_insensitive, pat_view);
            let pg = grapheme_split(self.patterns[pi].pattern.as_str());
            let mut labels: Vec<String> = Vec::new();
            let mut kk: usize = 0;
            proof {
                assert(pg@.len() == labels_spec.len());
            }
            while kk < pg.len()
                invariant
                    kk <= pg@.len() == labels_spec.len(),
                    labels@.len() == kk,
                    forall|q: int| 0 <= q < kk ==> (#[trigger] labels@[q])@ == labels_spec[q],
                decreases pg@.len() - kk,
            {
                proof {
                    assert(pg@[kk as int].1@ == graphemes_of(pat_view)[kk as int]);
                }
                if self.case_insensitive {
                    labels.push(lowercase(pg[kk].1.as_str()));
                } else {
                    let c = pg[kk].1.clone();
                    labels.push(c);
                }
                kk = kk + 1;
            }
            let lp = labels.len();
            let lstored = self.patterns[pi].grapheme_len;
            let w = self.patterns[pi].weight;
            let sc0 = score_of(lstored, w, 0);
            let admitted = sc0.at_least(similarity_threshold);
            proof {
                lemma_zero_penalty_gate(lstored as int, w as int, t);
            }
            if lp >= 1 && lp <= n && admitted {
                let mut sp: usize = 0;
                while sp <= n - lp
                    invariant
                        lp >= 1,
                        lp <= n,
                        sp <= n - lp + 1,
                        lp == labels_spec.len(),
                        labels@.len() == lp,
                        forall|q: int| 0 <= q < lp ==> (#[trigger] labels@[q])@ == labels_spec[q],
                        forall|k: int|
                            0 <= k < best@.len() ==> match_valid(*self, hs, t, #[trigger] best@[k]),
                        keys_unique(best@),
                        zero_edit_entries(best@),
                        forall|pp: int, sd: int|
                            #![trigger exact_occurrence(*self, hs, t, pp, sd)]
                            0 <= pp < pi && exact_occurrence(*self, hs, t, pp, sd)
                                ==> exact_reported(*self, hs, best@, pp, sd),
                        forall|sd: int|
                            #![trigger exact_occurrence(*self, hs, t, pi as int, sd)]
                            0 <= sd < sp && exact_occurrence(*self, hs, t, pi as int, sd)
                                ==> exact_reported(*self, hs, best@, pi as int, sd),
                    decreases n - sp,
                {
                    let mut km: usize = 0;
                    while km < lp && text_chars[sp + km] == labels[km]
                        invariant
                            km <= lp,
                            sp + lp <= n,
                            forall|q: int|
                                0 <= q < km ==> (#[trigger] text_chars@[sp + q])@ == labels_spec[q],
                        decreases lp - km,
                    {
                        km = km + 1;
                    }
                    if km == lp {
                        let start_byte = g[sp].0;
                        let end_byte = if sp + lp < n {
                            g[sp + lp].0
                        } else {
                            proof {
                                lemma_gstart_end(hs, g@, (sp + lp) as int);
                            }
                            hlen
                        };
                        let text = concat_range(&g, sp, sp + lp);
                        proof {
                            assert(strs_of(g@).subrange(sp as int, (sp + lp) as int)
                                =~= graphemes_of(hs).subrange(sp as int, (sp + lp) as int));
                            lemma_match_text_bound(hs, g@, sp as int, (sp + lp) as int);
                        }
                        let m = FuzzyMatch {
                            insertions: 0,
                            deletions: 0,
                            substitutions: 0,
                            swaps: 0,
                            edits: 0,
                            pattern_index: pi,
                            pattern: copy_pattern(&self.patterns[pi]),
                            start: start_byte,
                            end: end_byte,
                            grapheme_start: sp,
                            grapheme_end: sp + lp,
                            penalty: 0,
                            similarity: sc0,
                            text,
                        };
                        let ghost best0 = best@;
                        proof {
                            assert(match_valid(*self, hs, t, m));
                        }
                        record_match(&mut best, m, self, Ghost(hs), Ghost(t));
                        proof {
                            // Claims established so far survive the insertion.
                            assert forall|pp: int, sd: int|
                                #![trigger exact_occurrence(*self, hs, t, pp, sd)]
                                0 <= pp < pi && exact_occurrence(*self, hs, t, pp, sd)
                                    implies exact_reported(*self, hs, best@, pp, sd) by {
                                lemma_one_claim_preserved(*self, hs, t, best0, best@, pp, sd);
                            }
                            assert forall|sd: int|
                                #![trigger exact_occurrence(*self, hs, t, pi as int, sd)]
                                0 <= sd < sp && exact_occurrence(*self, hs, t, pi as int, sd)
                                    implies exact_reported(*self, hs, best@, pi as int, sd) by {
                                lemma_one_claim_preserved(*self, hs, t, best0, best@, pi as int, sd);
                            }
                            // Every entry is still a zero-edit entry.
                            assert forall|k: int| 0 <= k < best@.len() implies (
                            #[trigger] best@[k]).edits == 0 && best@[k].penalty == 0
                                && best@[k].insertions == 0 && best@[k].deletions == 0
                                && best@[k].substitutions == 0 && best@[k].swaps == 0 by {
                                if best@[k] != m {
                                    assert(best0.contains(best@[k]));
                                }
                            }
                            // The table holds the new occurrence: either the
                            // candidate itself, or an equal zero-edit entry of
                            // the same key, whose grapheme span must agree by
                            // injectivity of the byte offsets.
                            let k2 = choose|k2: int|
                                0 <= k2 < best@.len() && same_key(#[trigger] best@[k2], m) && (
                                best@[k2] == m || m.similarity.spec_le(best@[k2].similarity));
                            let e2 = best@[k2];
                            if e2 != m {
                                assert(best0.contains(e2));
                                assert(e2.edits == 0 && e2.penalty == 0);
                                assert(e2.start == m.start && e2.end == m.end
                                    && e2.pattern_index == m.pattern_index);
                                if sp + lp == n {
                                    lemma_gstart_end(hs, g@, n as int);
                                }
                                lemma_gstart_inj(
                                    hs,
                                    g@,
                                    e2.grapheme_start as int,
                                    m.grapheme_start as int,
                                );
                                lemma_gstart_inj(
                                    hs,
                                    g@,
                                    e2.grapheme_end as int,
                                    m.grapheme_end as int,
                                );
                            }
                            assert(exact_reported(*self, hs, best@, pi as int, sp as int));
                        }
                    } else {
                        proof {
                            assert(!(text_chars@[sp + km] == labels@[km as int]));
                            assert(!exact_occurrence(*self, hs, t, pi as int, sp as int));
                        }
                    }
                    sp = sp + 1;
                }
                proof {
                    assert forall|sd: int|
                        #![trigger exact_occurrence(*self, hs, t, pi as int, sd)]
                        0 <= sd && exact_occurrence(*self, hs, t, pi as int, sd)
                            implies exact_reported(*self, hs, best@, pi as int, sd) by {
                        assert(sd + lp <= n);
                    }
                }
            } else {
                proof {
                    assert forall|sd: int| #[trigger]
                        exact_occurrence(*self, hs, t, pi as int, sd) implies false by {
                        assert(labels_spec.len() > 0);
                        assert(sd + labels_spec.len() <= n);
                        assert(t <= w);
                    }
                }
            }
            pi = pi + 1;
        }
        proof {
            assert(exact_complete(*self, hs, t, best@));
        }

        let mut start: usize = 0;
        while start < n
            invariant
                start <= n,
                forall|k: int|
                    0 <= k < best@.len() ==> match_valid(*self, hs, t, #[trigger] best@[k]),
                keys_unique(best@),
                exact_complete(*self, hs, t, best@),
            decreases n - start,
        {
            let mut queue: Vec<State> = Vec::new();
            queue.push(
                State {
                    node: 0,
                    j: start,
                    matched_start: start,
                    matched_end: start,
                    penalties: 0,
                    edits: 0,
                    insertions: 0,
                    deletions: 0,
                    substitutions: 0,
                    swaps: 0,
                },
            );
            let mut q_idx: usize = 0;
            let mut budget: usize = SEARCH_BUDGET;
            while q_idx < queue.len() && budget > 0
                invariant
                    q_idx <= queue@.len(),
                    budget <= SEARCH_BUDGET,
                    forall|k: int|
                        0 <= k < queue@.len() ==> state_ok(
                            #[trigger] queue@[k],
                            nn,
                            n as int,
                            SEARCH_BUDGET - budget,
                        ),
                    forall|k: int|
                        0 <= k < best@.len() ==> match_valid(*self, hs, t, #[trigger] best@[k]),
                    keys_unique(best@),
                    exact_complete(*self, hs, t, best@),
                decreases budget,
            {
                budget = budget - 1;

                // Beam pruning: when the unexplored tail outgrows twice the
                // beam, keep only the lowest-penalty candidates.
                if let Some(bw) = self.beam_width {
                    let remaining = queue.len() - q_idx;
                    if remaining > bw * 2 {
                        sort_states_tail(&mut queue, q_idx);
                        queue.truncate(q_idx + bw);
                    }
                }

                let st = queue[q_idx];
                q_idx = q_idx + 1;

                // Threshold pruning: even the longest pattern cannot reach
                // the threshold from this penalty.
                if st.penalties > lmax_units {
                    continue ;
                }
                proof {
                    assert((lmax_units - st.penalties) * (SCALE as u64) <= 256000000)
                        by (nonlinear_arith)
                        requires
                            st.penalties <= lmax_units <= 2560000,
                    ;
                }
                if (lmax_units - st.penalties) * (SCALE as u64) < prune_rhs {
                    continue ;
                }

                // Report the patterns completed at this node.
                let num_out = self.nodes[st.node].output.len();
                let mut oi: usize = 0;
                while oi < num_out
                    invariant
                        oi <= num_out,
                        num_out == self.nodes@[st.node as int].output@.len(),
                        forall|k: int|
                            0 <= k < best@.len() ==> match_valid(*self, hs, t, #[trigger] best@[k]),
                        keys_unique(best@),
                        exact_complete(*self, hs, t, best@),
                    decreases num_out - oi,
                {
                    let p_i = self.nodes[st.node].output[oi];
                    if st.matched_start < st.matched_end && self.within_limits(
                        self.patterns[p_i].limits,
                        st.edits,
                        st.insertions,
                        st.deletions,
                        st.substitutions,
                        st.swaps,
                    ) {
                        let start_byte = g[st.matched_start].0;
                        let end_byte = if st.matched_end < n {
                            g[st.matched_end].0
                        } else {
                            proof {
                                lemma_gstart_end(hs, g@, st.matched_end as int);
                            }
                            hlen
                        };
                        let lp = self.patterns[p_i].grapheme_len;
                        proof {
                            assert((lp as u64) * SCALE_SQ <= 2560000) by (nonlinear_arith)
                                requires
                                    1 <= lp <= MAX_GRAPHEMES,
                            ;
                        }
                        let lp_units: u64 = (lp as u64) * SCALE_SQ;
                        if st.penalties <= lp_units {
                            let sc = score_of(lp, self.patterns[p_i].weight, st.penalties);
                            if sc.at_least(similarity_threshold) {
                                let text = concat_range(&g, st.matched_start, st.matched_end);
                                proof {
                                    assert(strs_of(g@).subrange(
                                        st.matched_start as int,
                                        st.matched_end as int,
                                    ) =~= graphemes_of(hs).subrange(
                                        st.matched_start as int,
                                        st.matched_end as int,
                                    ));
                                    lemma_match_text_bound(
                                        hs,
                                        g@,
                                        st.matched_start as int,
                                        st.matched_end as int,
                                    );
                                }
                                let m = FuzzyMatch {
                                    insertions: st.insertions,
                                    deletions: st.deletions,
                                    substitutions: st.substitutions,
                                    swaps: st.swaps,
                                    edits: st.edits,
                                    pattern_index: p_i,
                                    pattern: copy_pattern(&self.patterns[p_i]),
                                    start: start_byte,
                                    end: end_byte,
                                    grapheme_start: st.matched_start,
                                    grapheme_end: st.matched_end,
                                    penalty: st.penalties,
                                    similarity: sc,
                                    text,
                                };
                                let ghost best0 = best@;
                                record_match(&mut best, m, self, Ghost(hs), Ghost(t));
                                proof {
                                    lemma_claims_preserved(*self, hs, t, best0, best@);
                                }
                            }
                        }
                    }
                    oi = oi + 1;
                }

                let node_limits = self.get_node_limits(st.node);

                if st.j < n {
                    let cur_ch = text_chars[st.j].as_str().get_char(0);

                    // Exact transitions and substitutions.
                    let num_edges = self.nodes[st.node].transitions.len();
                    let mut ti: usize = 0;
                    while ti < num_edges
                        invariant
                            ti <= num_edges,
                            num_edges == self.nodes@[st.node as int].transitions@.len(),
                            q_idx <= queue@.len(),
                            forall|k: int|
                                0 <= k < queue@.len() ==> state_ok(
                                    #[trigger] queue@[k],
                                    nn,
                                    n as int,
                                    SEARCH_BUDGET - budget,
                                ),
                        decreases num_edges - ti,
                    {
                        let next_node = self.nodes[st.node].transitions[ti].1;
                        let new_start = if st.matched_end == st.matched_start {
                            st.j
                        } else {
                            st.matched_start
                        };
                        if self.nodes[st.node].transitions[ti].0 == text_chars[st.j] {
                            queue.push(
                                State {
                                    node: next_node,
                                    j: st.j + 1,
                                    matched_start: new_start,
                                    matched_end: st.j + 1,
                                    penalties: st.penalties,
                                    edits: st.edits,
                                    insertions: st.insertions,
                                    deletions: st.deletions,
                                    substitutions: st.substitutions,
                                    swaps: st.swaps,
                                },
                            );
                        } else if self.within_limits_subst(
                            node_limits,
                            st.edits,
                            st.substitutions,
                        ) {
                            let g_ch = self.nodes[st.node].transitions[ti].0.as_str().get_char(0);
                            let sim = self.get_similarity(g_ch, cur_ch);
                            proof {
                                assert((self.penalties.substitution as u64) * ((SCALE - sim) as u64)
                                    <= 1000000) by (nonlinear_arith)
                                    requires
                                        self.penalties.substitution <= MAX_PENALTY,
                                        sim <= SCALE,
                                ;
                            }
                            let cost = (self.penalties.substitution as u64) * ((SCALE - sim)
                                as u64);
                            queue.push(
                                State {
                                    node: next_node,
                                    j: st.j + 1,
                                    matched_start: new_start,
                                    matched_end: st.j + 1,
                                    penalties: st.penalties + cost,
                                    edits: st.edits + 1,
                                    insertions: st.insertions,
                                    deletions: st.deletions,
                                    substitutions: st.substitutions + 1,
                                    swaps: st.swaps,
                                },
                            );
                        }
                        ti = ti + 1;
                    }

                    // Swap: consume the next two graphemes in transposed
                    // order.
                    if st.j + 1 < n {
                        match trans_lookup(&self.nodes[st.node].transitions, &text_chars[st.j + 1]) {
                            Some(n1) => {
                                proof {
                                    lemma_trans_lookup_in_range(
                                        self.nodes@[st.node as int],
                                        nn,
                                        np,
                                        text_chars@[st.j + 1]@,
                                    );
                                }
                                match trans_lookup(&self.nodes[n1].transitions, &text_chars[st.j]) {
                                    Some(n2) => {
                                        proof {
                                            lemma_trans_lookup_in_range(
                                                self.nodes@[n1 as int],
                                                nn,
                                                np,
                                                text_chars@[st.j as int]@,
                                            );
                                        }
                                        if self.within_limits_swap_ahead(
                                            self.get_node_limits(n2),
                                            st.edits,
                                            st.swaps,
                                        ) {
                                            proof {
                                                assert((self.penalties.swap as u64) * (SCALE
                                                    as u64) <= 1000000) by (nonlinear_arith)
                                                    requires
                                                        self.penalties.swap <= MAX_PENALTY,
                                                ;
                                            }
                                            queue.push(
                                                State {
                                                    node: n2,
                                                    j: st.j + 2,
                                                    matched_start: st.matched_start,
                                                    matched_end: st.j + 2,
                                                    penalties: st.penalties + (self.penalties.swap
                                                        as u64) * (SCALE as u64),
                                                    edits: st.edits + 1,
                                                    insertions: st.insertions,
                                                    deletions: st.deletions,
                                                    substitutions: st.substitutions,
                                                    swaps: st.swaps + 1,
                                                },
                                            );
                                        }
                                    },
                                    None => {},
                                }
                            },
                            None => {},
                        }
                    }

                    // Insertion: skip one haystack grapheme, once the match
                    // window has begun.
                    if (st.matched_start != st.matched_end || st.matched_start != st.j)
                        && self.within_limits_insertion_ahead(
                        node_limits,
                        st.edits,
                        st.insertions,
                    ) {
                        proof {
                            assert((self.penalties.insertion as u64) * (SCALE as u64) <= 1000000)
                                by (nonlinear_arith)
                                requires
                                    self.penalties.insertion <= MAX_PENALTY,
                            ;
                        }
                        queue.push(
                            State {
                                node: st.node,
                                j: st.j + 1,
                                matched_start: st.matched_start,
                                matched_end: st.matched_end,
                                penalties: st.penalties + (self.penalties.insertion as u64) * (
                                SCALE as u64),
                                edits: st.edits + 1,
                                insertions: st.insertions + 1,
                                deletions: st.deletions,
                                substitutions: st.substitutions,
                                swaps: st.swaps,
                            },
                        );
                    }
                }

                // Deletion: advance in the automaton without consuming a
                // grapheme; allowed even at the end of the haystack.
                if self.within_limits_deletion_ahead(node_limits, st.edits, st.deletions) {
                    proof {
                        assert((self.penalties.deletion as u64) * (SCALE as u64) <= 1000000)
                            by (nonlinear_arith)
                            requires
                                self.penalties.deletion <= MAX_PENALTY,
                        ;
                    }
                    let del_cost = (self.penalties.deletion as u64) * (SCALE as u64);
                    let num_edges = self.nodes[st.node].transitions.len();
                    let mut ti: usize = 0;
                    while ti < num_edges
                        invariant
                            ti <= num_edges,
                            num_edges == self.nodes@[st.node as int].transitions@.len(),
                            q_idx <= queue@.len(),
                            forall|k: int|
                                0 <= k < queue@.len() ==> state_ok(
                                    #[trigger] queue@[k],
                                    nn,
                                    n as int,
                                    SEARCH_BUDGET - budget,
                                ),
                        decreases num_edges - ti,
                    {
                        let next_node = self.nodes[st.node].transitions[ti].1;
                        queue.push(
                            State {
                                node: next_node,
                                j: st.j,
                                matched_start: st.matched_start,
                                matched_end: st.matched_end,
                                penalties: st.penalties + del_cost,
                                edits: st.edits + 1,
                                insertions: st.insertions,
                                deletions: st.deletions + 1,
                                substitutions: st.substitutions,
                                swaps: st.swaps,
                            },
                        );
                        ti = ti + 1;
                    }
                }
            }
            start = start + 1;
        }

        proof {
            assert forall|k: int| 0 <= k < best@.len() implies match_span_ok(
                hs,
                #[trigger] best@[k],
            ) && match_sortable(best@[k]) by {
                let m = best@[k];
                assert(match_valid(*self, hs, t, m));
                lemma_match_span_bytes(hs, g@, m);
                assert(pattern_wf(self.patterns@[m.pattern_index as int]));
            }
        }
        FuzzyMatches { haystack: haystack.to_owned(), graphemes: g, inner: best }
    }

    /// Fuzzy search with the default ranking applied: higher similarity
    /// first, then longer pattern, longer text, earlier start.
    pub fn search(&self, haystack: &str, similarity_threshold: u32) -> (r: FuzzyMatches)
        requires
            self.wf(),
        ensures
            r.wf(),
            r.haystack@ == haystack@,
            forall|k: int|
                0 <= k < r.inner@.len() ==> match_valid(
                    *self,
                    haystack@,
                    similarity_threshold as int,
                    #[trigger] r.inner@[k],
                ),
            forall|k: int|
                0 <= k < r.inner@.len() - 1 ==> default_le(#[trigger] r.inner@[k], r.inner@[k + 1]),
            exact_complete(*self, haystack@, similarity_threshold as int, r.inner@),
            similarity_threshold > SCALE ==> r.inner@.len() == 0,
    {
        let mut matches = self.search_unsorted(haystack, similarity_threshold);
        let ghost unsorted = matches.inner@;
        matches.default_sort();
        proof {
            lemma_valid_transport(
                *self,
                haystack@,
                similarity_threshold as int,
                matches.inner@,
                unsorted,
            );
            lemma_exact_complete_permuted(
                *self,
                haystack@,
                similarity_threshold as int,
                unsorted,
                matches.inner@,
            );
            assert(matches.inner@.to_multiset().len() == matches.inner@.len());
            assert(unsorted.to_multiset().len() == unsorted.len());
        }
        matches
    }

    /// Fuzzy search with the greedy ranking applied: longer pattern first,
    /// then higher similarity, earlier start.
    pub fn search_greedy(&self, haystack: &str, similarity_threshold: u32) -> (r: FuzzyMatches)
        requires
            self.wf(),
        ensures
            r.wf(),
            r.haystack@ == haystack@,
            forall|k: int|
                0 <= k < r.inner@.len() ==> match_valid(
                    *self,
                    haystack@,
                    similarity_threshold as int,
                    #[trigger] r.inner@[k],
                ),
            forall|k: int|
                0 <= k < r.inner@.len() - 1 ==> greedy_le(#[trigger] r.inner@[k], r.inner@[k + 1]),
            exact_complete(*self, haystack@, similarity_threshold as int, r.inner@),
            similarity_threshold > SCALE ==> r.inner@.len() == 0,
    {
        let mut matches = self.search_unsorted(haystack, similarity_threshold);
        let ghost unsorted = matches.inner@;
        matches.greedy_sort();
        proof {
            lemma_valid_transport(
                *self,
                haystack@,
                similarity_threshold as int,
                matches.inner@,
                unsorted,
            );
            lemma_exact_complete_permuted(
                *self,
                haystack@,
                similarity_threshold as int,
                unsorted,
                matches.inner@,
            );
            assert(matches.inner@.to_multiset().len() == matches.inner@.len());
            assert(unsorted.to_multiset().len() == unsorted.len());
        }
        matches
    }

    /// Fuzzy search returning a non-overlapping selection: the default-ranked
    /// matches are walked in order and kept exactly when their span avoids
    /// every span already kept, so the highest similarity wins a span; the
    /// result is ordered by start and its spans are pairwise disjoint.
    pub fn search_non_overlapping(&self, haystack: &str, similarity_threshold: u32) -> (r:
        FuzzyMatches)
        requires
            self.wf(),
        ensures
            r.wf(),
            r.haystack@ == haystack@,
            forall|k: int|
                0 <= k < r.inner@.len() ==> match_valid(
                    *self,
                    haystack@,
                    similarity_threshold as int,
                    #[trigger] r.inner@[k],
                ),
            pairwise_disjoint(r.inner@),
            sorted_by_start(r.inner@),
            exists|sorted: Seq<FuzzyMatch>|
                {
                    &&& (forall|k: int|
                        0 <= k < sorted.len() ==> match_valid(
                            *self,
                            haystack@,
                            similarity_threshold as int,
                            #[trigger] sorted[k],
                        ))
                    &&& (forall|k: int|
                        0 <= k < sorted.len() - 1 ==> default_le(#[trigger] sorted[k], sorted[k + 1]))
                    &&& exact_complete(*self, haystack@, similarity_threshold as int, sorted)
                    &&& r.inner@ == #[trigger] nolap_fold(sorted, sorted.len() as int)
                },
            similarity_threshold > SCALE ==> r.inner@.len() == 0,
    {
        let mut matches = self.search(haystack, similarity_threshold);
        let ghost sorted = matches.inner@;
        matches.non_overlapping();
        proof {
            lemma_valid_transport(
                *self,
                haystack@,
                similarity_threshold as int,
                matches.inner@,
                sorted,
            );
        }
        matches
    }

    /// Like `search_non_overlapping`, and in addition each pattern identity
    /// (its custom id if present, its index otherwise) wins at most one span.
    pub fn search_non_overlapping_unique(&self, haystack: &str, similarity_threshold: u32) -> (r:
        FuzzyMatches)
        requires
            self.wf(),
        ensures
            r.wf(),
            r.haystack@ == haystack@,
            forall|k: int|
                0 <= k < r.inner@.len() ==> match_valid(
                    *self,
                    haystack@,
                    similarity_threshold as int,
                    #[trigger] r.inner@[k],
                ),
            pairwise_disjoint(r.inner@),
            sorted_by_start(r.inner@),
            unique_ids(r.inner@),
            exists|sorted: Seq<FuzzyMatch>|
                {
                    &&& (forall|k: int|
                        0 <= k < sorted.len() ==> match_valid(
                            *self,
                            haystack@,
                            similarity_threshold as int,
                            #[trigger] sorted[k],
                        ))
                    &&& (forall|k: int|
                        0 <= k < sorted.len() - 1 ==> default_le(#[trigger] sorted[k], sorted[k + 1]))
                    &&& exact_complete(*self, haystack@, similarity_threshold as int, sorted)
                    &&& r.inner@ == #[trigger] nolap_unique_fold(sorted, sorted.len() as int)
                },
            similarity_threshold > SCALE ==> r.inner@.len() == 0,
    {
        let mut matches = self.search(haystack, similarity_threshold);
        let ghost sorted = matches.inner@;
        matches.non_overlapping_unique();
        proof {
            lemma_valid_transport(
                *self,
                haystack@,
                similarity_threshold as int,
                matches.inner@,
                sorted,
            );
        }
        matches
    }
}

} // verus!
