use vstd::prelude::*;
use vstd::string::StringSliceAdditionalSpecFns;
use vstd::multiset::Multiset;
use crate::matches::{
    copy_match, match_sortable, match_span_ok, match_valid, spec_unique_id, FuzzyMatch,
    FuzzyMatches,
};
use crate::automaton::FuzzyAhoCorasick;
use crate::score::Score;
use crate::text::byte_len;
use crate::structs::UniqueId;

verus! {

broadcast use vstd::seq_lib::group_to_multiset_ensures;

/// `x` is one of the matches of `orig`.
pub open spec fn from_list(x: FuzzyMatch, orig: Seq<FuzzyMatch>) -> bool {
    exists|q: int| 0 <= q < orig.len() && x == orig[q]
}

/// The spans of two matches do not overlap; touching at an endpoint is
/// allowed.
pub open spec fn disjoint_spans(a: FuzzyMatch, b: FuzzyMatch) -> bool {
    a.end <= b.start || b.end <= a.start
}

/// No two distinct matches of the list overlap.
pub open spec fn pairwise_disjoint(ms: Seq<FuzzyMatch>) -> bool {
    forall|k1: int, k2: int|
        0 <= k1 < k2 < ms.len() ==> disjoint_spans(#[trigger] ms[k1], #[trigger] ms[k2])
}

/// The matches appear in order of ascending start offset.
pub open spec fn sorted_by_start(ms: Seq<FuzzyMatch>) -> bool {
    forall|k: int| 0 <= k < ms.len() - 1 ==> (#[trigger] ms[k]).start <= ms[k + 1].start
}

/// No two distinct matches of the list carry the same identity.
pub open spec fn unique_ids(ms: Seq<FuzzyMatch>) -> bool {
    forall|k1: int, k2: int|
        0 <= k1 < k2 < ms.len() ==> spec_unique_id(#[trigger] ms[k1]) != spec_unique_id(
            #[trigger] ms[k2],
        )
}

/// The span `[m.start, m.end)` avoids every span already kept.
pub open spec fn nolap_keeps(kept: Seq<FuzzyMatch>, m: FuzzyMatch) -> bool {
    forall|k: int| 0 <= k < kept.len() ==> ((#[trigger] kept[k]).end <= m.start || m.end <= kept[k].start)
}

/// Position at which a match starting at `s` is inserted into the kept list:
/// after every kept match that starts at or before `s`.
pub open spec fn nolap_insert_pos(kept: Seq<FuzzyMatch>, s: int) -> int
    decreases kept.len(),
{
    if kept.len() == 0 {
        0
    } else if kept[0].start > s {
        0
    } else {
        1 + nolap_insert_pos(kept.drop_first(), s)
    }
}

/// The non-overlapping selection over the first `i` matches: walking them in
/// order, a match is kept exactly when its span avoids every span already
/// kept, and the kept matches stand sorted by start.
pub open spec fn nolap_fold(ms: Seq<FuzzyMatch>, i: int) -> Seq<FuzzyMatch>
    decreases i,
{
    if i <= 0 {
        Seq::empty()
    } else {
        let prev = nolap_fold(ms, i - 1);
        let m = ms[i - 1];
        if nolap_keeps(prev, m) {
            prev.insert(nolap_insert_pos(prev, m.start as int), m)
        } else {
            prev
        }
    }
}

/// No kept match carries the identity of `m`.
pub open spec fn uid_fresh(kept: Seq<FuzzyMatch>, m: FuzzyMatch) -> bool {
    forall|k: int|
        0 <= k < kept.len() ==> spec_unique_id(#[trigger] kept[k]) != spec_unique_id(m)
}

/// The pattern-unique non-overlapping selection over the first `i` matches: a
/// match is kept exactly when its span avoids every kept span and its
/// identity is not yet used.
pub open spec fn nolap_unique_fold(ms: Seq<FuzzyMatch>, i: int) -> Seq<FuzzyMatch>
    decreases i,
{
    if i <= 0 {
        Seq::empty()
    } else {
        let prev = nolap_unique_fold(ms, i - 1);
        let m = ms[i - 1];
        if nolap_keeps(prev, m) && uid_fresh(prev, m) {
            prev.insert(nolap_insert_pos(prev, m.start as int), m)
        } else {
            prev
        }
    }
}

/// Pattern byte length, for the sort keys.
pub open spec fn plen(m: FuzzyMatch) -> nat {
    byte_len(m.pattern.pattern@)
}

/// Matched text byte length, for the sort keys.
pub open spec fn tlen(m: FuzzyMatch) -> nat {
    byte_len(m.text@)
}

/// The two similarities are equal as rationals.
pub open spec fn sim_eq(a: Score, b: Score) -> bool {
    a.num * b.den == b.num * a.den
}

/// The coverage key of `a` is strictly below that of `b`:
/// `similarity^2 * pattern_length`, compared exactly.
pub open spec fn cov_lt(a: FuzzyMatch, b: FuzzyMatch) -> bool {
    a.similarity.num * a.similarity.num * plen(a) * (b.similarity.den * b.similarity.den)
        < b.similarity.num * b.similarity.num * plen(b) * (a.similarity.den * a.similarity.den)
}

/// The coverage keys are equal.
pub open spec fn cov_eq(a: FuzzyMatch, b: FuzzyMatch) -> bool {
    a.similarity.num * a.similarity.num * plen(a) * (b.similarity.den * b.similarity.den)
        == b.similarity.num * b.similarity.num * plen(b) * (a.similarity.den * a.similarity.den)
}

/// The three ranking orders of the selector.
#[derive(Clone, Copy, Debug)]
pub(crate) enum SortMode {
    Default,
    Greedy,
    Coverage,
}

/// Default ranking: descending similarity, then descending pattern byte
/// length, then descending text byte length, then ascending start.
pub open spec fn default_le(a: FuzzyMatch, b: FuzzyMatch) -> bool {
    ||| b.similarity.spec_lt(a.similarity)
    ||| (sim_eq(a.similarity, b.similarity) && (plen(a) > plen(b) || (plen(a) == plen(b) && (tlen(
        a,
    ) > tlen(b) || (tlen(a) == tlen(b) && a.start <= b.start)))))
}

/// Greedy ranking: descending pattern byte length, then descending
/// similarity, then ascending start.
pub open spec fn greedy_le(a: FuzzyMatch, b: FuzzyMatch) -> bool {
    ||| plen(a) > plen(b)
    ||| (plen(a) == plen(b) && (b.similarity.spec_lt(a.similarity) || (sim_eq(
        a.similarity,
        b.similarity,
    ) && a.start <= b.start)))
}

/// Coverage-weighted ranking: descending `similarity^2 * pattern_length`,
/// then descending similarity, then ascending start.
pub open spec fn coverage_le(a: FuzzyMatch, b: FuzzyMatch) -> bool {
    ||| cov_lt(b, a)
    ||| (cov_eq(a, b) && (b.similarity.spec_lt(a.similarity) || (sim_eq(a.similarity, b.similarity)
        && a.start <= b.start)))
}

/// The order a sort mode establishes.
pub(crate) open spec fn mode_le(mode: SortMode, a: FuzzyMatch, b: FuzzyMatch) -> bool {
    match mode {
        SortMode::Default => default_le(a, b),
        SortMode::Greedy => greedy_le(a, b),
        SortMode::Coverage => coverage_le(a, b),
    }
}

/// Each ranking order is total.
proof fn lemma_mode_le_total(mode: SortMode, a: FuzzyMatch, b: FuzzyMatch)
    ensures
        mode_le(mode, a, b) || mode_le(mode, b, a),
{
    assert(cov_eq(a, b) ==> cov_eq(b, a)) by (nonlinear_arith);
    assert(sim_eq(a.similarity, b.similarity) ==> sim_eq(b.similarity, a.similarity));
}

/// Matched text byte length as a machine integer.
fn text_byte_len(m: &FuzzyMatch) -> (r: usize)
    requires
        match_sortable(*m),
    ensures
        r == tlen(*m),
{
    let s = m.text.as_str();
    let n = s.len();
    assert(s.spec_bytes() == vstd::utf8::encode_utf8(m.text@));
    n
}

/// Decides the ranking order between two matches.
fn le_exec(mode: SortMode, a: &FuzzyMatch, b: &FuzzyMatch) -> (r: bool)
    requires
        match_sortable(*a),
        match_sortable(*b),
    ensures
        r == mode_le(mode, *a, *b),
{
    match mode {
        SortMode::Default => {
            if b.similarity.lt(&a.similarity) {
                true
            } else if a.similarity.lt(&b.similarity) {
                false
            } else {
                let pa = a.pattern.len();
                let pb = b.pattern.len();
                if pa != pb {
                    pa > pb
                } else {
                    let ta = text_byte_len(a);
                    let tb = text_byte_len(b);
                    if ta != tb {
                        ta > tb
                    } else {
                        a.start <= b.start
                    }
                }
            }
        },
        SortMode::Greedy => {
            let pa = a.pattern.len();
            let pb = b.pattern.len();
            if pa != pb {
                pa > pb
            } else if b.similarity.lt(&a.similarity) {
                true
            } else if a.similarity.lt(&b.similarity) {
                false
            } else {
                a.start <= b.start
            }
        },
        SortMode::Coverage => {
            let ca = cov_key_exec(a, b);
            let cb = cov_key_exec(b, a);
            if ca != cb {
                ca > cb
            } else if b.similarity.lt(&a.similarity) {
                true
            } else if a.similarity.lt(&b.similarity) {
                false
            } else {
                a.start <= b.start
            }
        },
    }
}

/// `a.similarity^2 * plen(a) * b.den^2`, the cross-multiplied coverage key.
fn cov_key_exec(a: &FuzzyMatch, b: &FuzzyMatch) -> (r: u128)
    requires
        match_sortable(*a),
        match_sortable(*b),
    ensures
        r == a.similarity.num * a.similarity.num * plen(*a) * (b.similarity.den
            * b.similarity.den),
{
    let pa = a.pattern.len();
    let an = a.similarity.num as u128;
    let bd = b.similarity.den as u128;
    assert(an * an <= 0x10000000 * 0x10000000) by (nonlinear_arith)
        requires
            an <= 0x10000000,
    ;
    let x1 = an * an;
    assert(x1 * (pa as u128) <= 0x100000000000000 * 0x1000) by (nonlinear_arith)
        requires
            x1 <= 0x100000000000000,
            pa <= 0x1000,
    ;
    let x2 = x1 * (pa as u128);
    assert(bd * bd <= 0x10000000 * 0x10000000) by (nonlinear_arith)
        requires
            bd <= 0x10000000,
    ;
    let x3 = bd * bd;
    assert(x2 * x3 <= 0x100000000000000000 * 0x100000000000000) by (nonlinear_arith)
        requires
            x2 <= 0x100000000000000000,
            x3 <= 0x100000000000000,
    ;
    x2 * x3
}

/// Stable insertion sort by the given ranking: the result is a permutation of
/// the input in which every adjacent pair is ordered.
#[verifier::loop_isolation(false)]
pub(crate) fn sort_matches(v: &mut Vec<FuzzyMatch>, mode: SortMode)
    requires
        forall|k: int| 0 <= k < old(v)@.len() ==> match_sortable(#[trigger] old(v)@[k]),
    ensures
        final(v)@.len() == old(v)@.len(),
        final(v)@.to_multiset() == old(v)@.to_multiset(),
        forall|k: int|
            0 <= k < final(v)@.len() ==> from_list(#[trigger] final(v)@[k], old(v)@),
        forall|k: int|
            0 <= k < final(v)@.len() - 1 ==> mode_le(mode, #[trigger] final(v)@[k], final(v)@[k + 1]),
{
    let ghost orig = v@;
    let total = v.len();
    let mut out: Vec<FuzzyMatch> = Vec::new();
    let mut i: usize = 0;
    proof {
        assert(v@ =~= orig.skip(0));
    }
    while v.len() > 0
        invariant
            total == orig.len(),
            i + v@.len() == orig.len(),
            v@ == orig.skip(i as int),
            out@.to_multiset().add(v@.to_multiset()) =~= orig.to_multiset(),
            forall|k: int| 0 <= k < out@.len() ==> from_list(#[trigger] out@[k], orig),
            forall|k: int|
                0 <= k < out@.len() - 1 ==> mode_le(mode, #[trigger] out@[k], out@[k + 1]),
        decreases v@.len(),
    {
        let ghost v_before = v@;
        let ghost out_before = out@;
        let e = v.remove(0);
        proof {
            assert(e == orig[i as int]);
            assert(v@ =~= orig.skip(i + 1));
            assert(v_before.remove(0).to_multiset() =~= v_before.to_multiset().remove(
                v_before[0],
            ));
            assert(v_before.to_multiset().contains(v_before[0]));
        }
        let mut p: usize = 0;
        while p < out.len() && le_exec(mode, &out[p], &e)
            invariant
                p <= out@.len(),
                out@ == out_before,
                forall|k: int| 0 <= k < p ==> mode_le(mode, #[trigger] out@[k], e),
            decreases out@.len() - p,
        {
            proof {
                let q = choose|q: int| 0 <= q < orig.len() && out@[p as int] == orig[q];
            }
            p = p + 1;
        }
        proof {
            if p < out@.len() {
                lemma_mode_le_total(mode, out@[p as int], e);
            }
            out@.insert_ensures(p as int, e);
            assert(out@.insert(p as int, e).to_multiset() =~= out@.to_multiset().insert(e));
        }
        out.insert(p, e);
        proof {
            assert(out@.to_multiset().add(v@.to_multiset()) =~= orig.to_multiset());
        }
        i = i + 1;
    }
    proof {
        assert(v@.to_multiset() =~= Multiset::<FuzzyMatch>::empty());
        assert(out@.to_multiset().add(v@.to_multiset()) =~= out@.to_multiset());
        assert(out@.to_multiset().len() == out@.len());
        assert(orig.to_multiset().len() == orig.len());
    }
    *v = out;
}

/// Transport of well-formedness: a list rebuilt from matches of a well-formed
/// list is well-formed over the same haystack.
pub proof fn lemma_wf_transport(older: FuzzyMatches, newer: FuzzyMatches)
    requires
        older.wf(),
        newer.haystack@ == older.haystack@,
        newer.graphemes@ == older.graphemes@,
        forall|k: int|
            0 <= k < newer.inner@.len() ==> from_list(#[trigger] newer.inner@[k], older.inner@),
    ensures
        newer.wf(),
{
    assert forall|k: int| 0 <= k < newer.inner@.len() implies match_span_ok(
        newer.haystack@,
        #[trigger] newer.inner@[k],
    ) && match_sortable(newer.inner@[k]) by {
        let q = choose|q: int|
            0 <= q < older.inner@.len() && newer.inner@[k] == older.inner@[q];
    }
}

/// Transport of validity: matches taken from a list of valid matches are
/// valid.
pub proof fn lemma_valid_transport(
    eng: FuzzyAhoCorasick,
    hs: Seq<char>,
    t: int,
    newer: Seq<FuzzyMatch>,
    older: Seq<FuzzyMatch>,
)
    requires
        forall|k: int| 0 <= k < older.len() ==> match_valid(eng, hs, t, #[trigger] older[k]),
        forall|k: int| 0 <= k < newer.len() ==> from_list(#[trigger] newer[k], older),
    ensures
        forall|k: int| 0 <= k < newer.len() ==> match_valid(eng, hs, t, #[trigger] newer[k]),
{
    assert forall|k: int| 0 <= k < newer.len() implies match_valid(
        eng,
        hs,
        t,
        #[trigger] newer[k],
    ) by {
        let q = choose|q: int| 0 <= q < older.len() && newer[k] == older[q];
    }
}

/// Whether the span `[s, e)` avoids every kept span.
fn disjoint_from_all(kept: &Vec<FuzzyMatch>, s: usize, e: usize) -> (r: bool)
    ensures
        r == forall|k: int|
            0 <= k < kept@.len() ==> ((#[trigger] kept@[k]).end <= s || e <= kept@[k].start),
{
    let mut k: usize = 0;
    while k < kept.len()
        invariant
            k <= kept@.len(),
            forall|q: int| 0 <= q < k ==> ((#[trigger] kept@[q]).end <= s || e <= kept@[q].start),
        decreases kept@.len() - k,
    {
        if !(kept[k].end <= s || e <= kept[k].start) {
            return false;
        }
        k = k + 1;
    }
    true
}

/// First position whose match starts after `s`; everything before starts at
/// or before `s`. This is exactly where the selection's fold inserts.
fn find_start_pos(kept: &Vec<FuzzyMatch>, s: usize) -> (p: usize)
    ensures
        p <= kept@.len(),
        forall|k: int| 0 <= k < p ==> (#[trigger] kept@[k]).start <= s,
        p < kept@.len() ==> kept@[p as int].start > s,
        p as int == nolap_insert_pos(kept@, s as int),
{
    proof {
        assert(kept@.skip(0) =~= kept@);
    }
    let mut p: usize = 0;
    while p < kept.len() && kept[p].start <= s
        invariant
            p <= kept@.len(),
            forall|k: int| 0 <= k < p ==> (#[trigger] kept@[k]).start <= s,
            nolap_insert_pos(kept@, s as int) == p + nolap_insert_pos(
                kept@.skip(p as int),
                s as int,
            ),
        decreases kept@.len() - p,
    {
        proof {
            assert(kept@.skip(p as int)[0] == kept@[p as int]);
            assert(kept@.skip(p as int).drop_first() =~= kept@.skip(p + 1));
        }
        p = p + 1;
    }
    proof {
        if p < kept.len() {
            assert(kept@.skip(p as int)[0] == kept@[p as int]);
        } else {
            assert(kept@.skip(p as int).len() == 0);
        }
    }
    p
}

/// Whether the identity was already used.
fn contains_uid(used: &Vec<UniqueId>, id: UniqueId) -> (r: bool)
    ensures
        r == used@.contains(id),
{
    let mut k: usize = 0;
    while k < used.len()
        invariant
            k <= used@.len(),
            forall|q: int| 0 <= q < k ==> used@[q] != id,
        decreases used@.len() - k,
    {
        if used[k] == id {
            return true;
        }
        k = k + 1;
    }
    false
}

/// The identity under which uniqueness selection counts this match.
fn unique_id_of(m: &FuzzyMatch) -> (r: UniqueId)
    ensures
        r == spec_unique_id(*m),
{
    match m.pattern.custom_unique_id {
        Some(c) => UniqueId::Custom(c),
        None => UniqueId::Automatic(m.pattern_index),
    }
}

/// Inserting a non-overlapping match at its start position keeps the kept
/// list pairwise disjoint and sorted by start.
proof fn lemma_nolap_insert(prev: Seq<FuzzyMatch>, m: FuzzyMatch, p: int)
    requires
        pairwise_disjoint(prev),
        sorted_by_start(prev),
        nolap_keeps(prev, m),
        0 <= p <= prev.len(),
        forall|k: int| 0 <= k < p ==> (#[trigger] prev[k]).start <= m.start,
        p < prev.len() ==> prev[p].start > m.start,
    ensures
        pairwise_disjoint(prev.insert(p, m)),
        sorted_by_start(prev.insert(p, m)),
{
    prev.insert_ensures(p, m);
    let new = prev.insert(p, m);
    assert forall|k1: int, k2: int| 0 <= k1 < k2 < new.len() implies disjoint_spans(
        #[trigger] new[k1],
        #[trigger] new[k2],
    ) by {
        if k1 != p && k2 != p {
            let q1: int = if k1 < p {
                k1
            } else {
                k1 - 1
            };
            let q2: int = if k2 < p {
                k2
            } else {
                k2 - 1
            };
            assert(new[k1] == prev[q1]);
            assert(new[k2] == prev[q2]);
        }
    }
    assert forall|k: int| 0 <= k < new.len() - 1 implies (#[trigger] new[k]).start <= new[k
        + 1].start by {
        if k + 1 < p {
            assert(new[k] == prev[k]);
            assert(new[k + 1] == prev[k + 1]);
        } else if k + 1 == p {
            assert(new[k] == prev[k]);
        } else if k == p {
            assert(new[k + 1] == prev[k]);
        } else {
            assert(new[k] == prev[k - 1]);
            assert(new[k + 1] == prev[k]);
        }
    }
}

/// The same insertion with a fresh identity also keeps the identities
/// pairwise distinct.
proof fn lemma_nolap_insert_unique(prev: Seq<FuzzyMatch>, m: FuzzyMatch, p: int)
    requires
        pairwise_disjoint(prev),
        sorted_by_start(prev),
        unique_ids(prev),
        nolap_keeps(prev, m),
        uid_fresh(prev, m),
        0 <= p <= prev.len(),
        forall|k: int| 0 <= k < p ==> (#[trigger] prev[k]).start <= m.start,
        p < prev.len() ==> prev[p].start > m.start,
    ensures
        pairwise_disjoint(prev.insert(p, m)),
        sorted_by_start(prev.insert(p, m)),
        unique_ids(prev.insert(p, m)),
{
    lemma_nolap_insert(prev, m, p);
    prev.insert_ensures(p, m);
    let new = prev.insert(p, m);
    assert forall|k1: int, k2: int| 0 <= k1 < k2 < new.len() implies spec_unique_id(
        #[trigger] new[k1],
    ) != spec_unique_id(#[trigger] new[k2]) by {
        if k1 != p && k2 != p {
            let q1: int = if k1 < p {
                k1
            } else {
                k1 - 1
            };
            let q2: int = if k2 < p {
                k2
            } else {
                k2 - 1
            };
            assert(new[k1] == prev[q1]);
            assert(new[k2] == prev[q2]);
        } else if k1 == p {
            assert(new[k2] == prev[k2 - 1]);
        } else {
            assert(new[k1] == prev[k1]);
        }
    }
}

impl FuzzyMatches {
    /// Default ranking: prefers higher similarity, then longer pattern, then
    /// longer matched text, then earlier occurrence.
    pub fn default_sort(&mut self)
        requires
            forall|k: int|
                0 <= k < old(self).inner@.len() ==> match_sortable(#[trigger] old(self).inner@[k]),
        ensures
            final(self).haystack == old(self).haystack,
            final(self).graphemes == old(self).graphemes,
            final(self).inner@.to_multiset() == old(self).inner@.to_multiset(),
            forall|k: int|
                0 <= k < final(self).inner@.len() ==> from_list(
                    #[trigger] final(self).inner@[k],
                    old(self).inner@,
                ),
            forall|k: int|
                0 <= k < final(self).inner@.len() - 1 ==> default_le(
                    #[trigger] final(self).inner@[k],
                    final(self).inner@[k + 1],
                ),
            old(self).wf() ==> final(self).wf(),
    {
        sort_matches(&mut self.inner, SortMode::Default);
        proof {
            if old(self).wf() {
                lemma_wf_transport(*old(self), *self);
            }
        }
    }

    /// Greedy ranking: prefers longer pattern first, then higher similarity,
    /// then earlier occurrence.
    pub fn greedy_sort(&mut self)
        requires
            forall|k: int|
                0 <= k < old(self).inner@.len() ==> match_sortable(#[trigger] old(self).inner@[k]),
        ensures
            final(self).haystack == old(self).haystack,
            final(self).graphemes == old(self).graphemes,
            final(self).inner@.to_multiset() == old(self).inner@.to_multiset(),
            forall|k: int|
                0 <= k < final(self).inner@.len() ==> from_list(
                    #[trigger] final(self).inner@[k],
                    old(self).inner@,
                ),
            forall|k: int|
                0 <= k < final(self).inner@.len() - 1 ==> greedy_le(
                    #[trigger] final(self).inner@[k],
                    final(self).inner@[k + 1],
                ),
            old(self).wf() ==> final(self).wf(),
    {
        sort_matches(&mut self.inner, SortMode::Greedy);
        proof {
            if old(self).wf() {
                lemma_wf_transport(*old(self), *self);
            }
        }
    }

    /// Coverage-weighted ranking: prefers higher `similarity^2 * pattern
    /// length`, then higher similarity, then earlier occurrence.
    pub fn coverage_weighted_sort(&mut self)
        requires
            forall|k: int|
                0 <= k < old(self).inner@.len() ==> match_sortable(#[trigger] old(self).inner@[k]),
        ensures
            final(self).haystack == old(self).haystack,
            final(self).graphemes == old(self).graphemes,
            final(self).inner@.to_multiset() == old(self).inner@.to_multiset(),
            forall|k: int|
                0 <= k < final(self).inner@.len() ==> from_list(
                    #[trigger] final(self).inner@[k],
                    old(self).inner@,
                ),
            forall|k: int|
                0 <= k < final(self).inner@.len() - 1 ==> coverage_le(
                    #[trigger] final(self).inner@[k],
                    final(self).inner@[k + 1],
                ),
            old(self).wf() ==> final(self).wf(),
    {
        sort_matches(&mut self.inner, SortMode::Coverage);
        proof {
            if old(self).wf() {
                lemma_wf_transport(*old(self), *self);
            }
        }
    }

    /// Retains a non-overlapping subset of the matches: walks the list in its
    /// current order and keeps a match only when its span does not overlap
    /// any already kept span; the survivors come out ordered by start.
    #[verifier::loop_isolation(false)]
    pub fn non_overlapping(&mut self)
        ensures
            final(self).haystack == old(self).haystack,
            final(self).graphemes == old(self).graphemes,
            final(self).inner@ == nolap_fold(old(self).inner@, old(self).inner@.len() as int),
            forall|k: int|
                0 <= k < final(self).inner@.len() ==> from_list(
                    #[trigger] final(self).inner@[k],
                    old(self).inner@,
                ),
            pairwise_disjoint(final(self).inner@),
            sorted_by_start(final(self).inner@),
            old(self).wf() ==> final(self).wf(),
    {
        let ghost orig = self.inner@;
        let mut kept: Vec<FuzzyMatch> = Vec::new();
        let mut i: usize = 0;
        while i < self.inner.len()
            invariant
                i <= self.inner@.len(),
                self.inner@ == orig,
                self.haystack == old(self).haystack,
                self.graphemes == old(self).graphemes,
                kept@ == nolap_fold(orig, i as int),
                forall|k: int| 0 <= k < kept@.len() ==> from_list(#[trigger] kept@[k], orig),
                pairwise_disjoint(kept@),
                sorted_by_start(kept@),
            decreases orig.len() - i,
        {
            let m = copy_match(&self.inner[i]);
            if disjoint_from_all(&kept, m.start, m.end) {
                let p = find_start_pos(&kept, m.start);
                let ghost kept_before = kept@;
                proof {
                    lemma_nolap_insert(kept_before, m, p as int);
                    kept_before.insert_ensures(p as int, m);
                }
                kept.insert(p, m);
            }
            i = i + 1;
        }
        self.inner = kept;
        proof {
            if old(self).wf() {
                lemma_wf_transport(*old(self), *self);
            }
        }
    }

    /// Like `non_overlapping`, but also keeps each identity (the custom id if
    /// present, the pattern index otherwise) at most once.
    #[verifier::loop_isolation(false)]
    #[verifier::rlimit(100)]
    pub fn non_overlapping_unique(&mut self)
        ensures
            final(self).haystack == old(self).haystack,
            final(self).graphemes == old(self).graphemes,
            final(self).inner@ == nolap_unique_fold(
                old(self).inner@,
                old(self).inner@.len() as int,
            ),
            forall|k: int|
                0 <= k < final(self).inner@.len() ==> from_list(
                    #[trigger] final(self).inner@[k],
                    old(self).inner@,
                ),
            pairwise_disjoint(final(self).inner@),
            sorted_by_start(final(self).inner@),
            unique_ids(final(self).inner@),
            old(self).wf() ==> final(self).wf(),
    {
        let ghost orig = self.inner@;
        let mut kept: Vec<FuzzyMatch> = Vec::new();
        let mut used: Vec<UniqueId> = Vec::new();
        let mut i: usize = 0;
        while i < self.inner.len()
            invariant
                i <= self.inner@.len(),
                self.inner@ == orig,
                self.haystack == old(self).haystack,
                self.graphemes == old(self).graphemes,
                kept@ == nolap_unique_fold(orig, i as int),
                forall|k: int| 0 <= k < kept@.len() ==> from_list(#[trigger] kept@[k], orig),
                pairwise_disjoint(kept@),
                sorted_by_start(kept@),
                unique_ids(kept@),
                forall|k: int|
                    0 <= k < kept@.len() ==> used@.contains(spec_unique_id(#[trigger] kept@[k])),
                forall|q: int|
                    #![trigger used@[q]]
                    0 <= q < used@.len() ==> exists|k: int|
                        0 <= k < kept@.len() && spec_unique_id(#[trigger] kept@[k]) == used@[q],
            decreases orig.len() - i,
        {
            let m = copy_match(&self.inner[i]);
            let id = unique_id_of(&m);
            let fresh = !contains_uid(&used, id);
            proof {
                if fresh {
                    assert forall|k: int| 0 <= k < kept@.len() implies spec_unique_id(
                        #[trigger] kept@[k],
                    ) != spec_unique_id(m) by {
                        assert(used@.contains(spec_unique_id(kept@[k])));
                    }
                } else {
                    let q = choose|q: int| 0 <= q < used@.len() && used@[q] == id;
                    let k = choose|k: int|
                        0 <= k < kept@.len() && spec_unique_id(#[trigger] kept@[k]) == used@[q];
                    assert(!uid_fresh(kept@, m));
                }
            }
            if fresh && disjoint_from_all(&kept, m.start, m.end) {
                let p = find_start_pos(&kept, m.start);
                let ghost kept_before = kept@;
                let ghost used_before = used@;
                proof {
                    lemma_nolap_insert_unique(kept_before, m, p as int);
                    kept_before.insert_ensures(p as int, m);
                }
                kept.insert(p, m);
                used.push(id);
                proof {
                    assert forall|k: int| 0 <= k < kept@.len() implies used@.contains(
                        spec_unique_id(#[trigger] kept@[k]),
                    ) by {
                        assert(used@ == used_before.push(id));
                        if k != p {
                            let q: int = if k < p {
                                k
                            } else {
                                k - 1
                            };
                            assert(kept@[k] == kept_before[q]);
                            assert(used_before.contains(spec_unique_id(kept@[k])));
                            let w = choose|w: int|
                                0 <= w < used_before.len() && used_before[w] == spec_unique_id(
                                    kept@[k],
                                );
                            assert(used@[w] == spec_unique_id(kept@[k]));
                        } else {
                            assert(used@[used@.len() - 1] == id);
                        }
                    }
                    assert forall|q: int| #![trigger used@[q]] 0 <= q < used@.len() implies exists|k: int|
                        0 <= k < kept@.len() && spec_unique_id(#[trigger] kept@[k]) == used@[q] by {
                        if q < used_before.len() {
                            let k0 = choose|k0: int|
                                0 <= k0 < kept_before.len() && spec_unique_id(
                                    #[trigger] kept_before[k0],
                                ) == used_before[q];
                            let k: int = if k0 < p {
                                k0
                            } else {
                                k0 + 1
                            };
                            assert(kept@[k] == kept_before[k0]);
                        } else {
                            assert(kept@[p as int] == m);
                        }
                    }
                    assert(kept@ == nolap_unique_fold(orig, i + 1));
                }
            }
            i = i + 1;
        }
        self.inner = kept;
        proof {
            if old(self).wf() {
                lemma_wf_transport(*old(self), *self);
            }
        }
    }
}

/// Copies the grapheme table of a match list.
fn copy_graphemes(g: &Vec<(usize, String)>) -> (r: Vec<(usize, String)>)
    ensures
        r@ == g@,
{
    let mut r: Vec<(usize, String)> = Vec::new();
    let mut i: usize = 0;
    while i < g.len()
        invariant
            i <= g@.len(),
            r@ =~= g@.subrange(0, i as int),
        decreases g@.len() - i,
    {
        r.push((g[i].0, g[i].1.clone()));
        i = i + 1;
    }
    proof {
        assert(g@.subrange(0, g@.len() as int) =~= g@);
    }
    r
}

impl FuzzyMatches {
    /// Keeps only the matches the predicate accepts, in place.
    #[verifier::loop_isolation(false)]
    pub fn retain<F: Fn(&FuzzyMatch) -> bool>(&mut self, pred: F)
        requires
            forall|m: &FuzzyMatch| #[trigger] pred.requires((m,)),
        ensures
            final(self).haystack == old(self).haystack,
            final(self).graphemes == old(self).graphemes,
            forall|k: int|
                0 <= k < final(self).inner@.len() ==> from_list(
                    #[trigger] final(self).inner@[k],
                    old(self).inner@,
                ),
            old(self).wf() ==> final(self).wf(),
    {
        let ghost orig = self.inner@;
        let mut kept: Vec<FuzzyMatch> = Vec::new();
        let mut i: usize = 0;
        while i < self.inner.len()
            invariant
                i <= self.inner@.len(),
                self.inner@ == orig,
                self.haystack == old(self).haystack,
                self.graphemes == old(self).graphemes,
                forall|k: int| 0 <= k < kept@.len() ==> from_list(#[trigger] kept@[k], orig),
            decreases orig.len() - i,
        {
            if pred(&self.inner[i]) {
                kept.push(copy_match(&self.inner[i]));
            }
            i = i + 1;
        }
        self.inner = kept;
        proof {
            if old(self).wf() {
                lemma_wf_transport(*old(self), *self);
            }
        }
    }

    /// A new match list over the same haystack holding only the matches the
    /// predicate accepts.
    #[verifier::loop_isolation(false)]
    pub fn filter<F: Fn(&FuzzyMatch) -> bool>(&self, pred: F) -> (r: FuzzyMatches)
        requires
            forall|m: &FuzzyMatch| #[trigger] pred.requires((m,)),
        ensures
            r.haystack@ == self.haystack@,
            r.graphemes@ == self.graphemes@,
            forall|k: int|
                0 <= k < r.inner@.len() ==> from_list(#[trigger] r.inner@[k], self.inner@),
            self.wf() ==> r.wf(),
    {
        let mut kept: Vec<FuzzyMatch> = Vec::new();
        let mut i: usize = 0;
        while i < self.inner.len()
            invariant
                i <= self.inner@.len(),
                forall|k: int|
                    0 <= k < kept@.len() ==> from_list(#[trigger] kept@[k], self.inner@),
            decreases self.inner@.len() - i,
        {
            if pred(&self.inner[i]) {
                kept.push(copy_match(&self.inner[i]));
            }
            i = i + 1;
        }
        let r = FuzzyMatches {
            haystack: self.haystack.clone(),
            graphemes: copy_graphemes(&self.graphemes),
            inner: kept,
        };
        proof {
            if self.wf() {
                lemma_wf_transport(*self, r);
            }
        }
        r
    }
}

} // verus!
