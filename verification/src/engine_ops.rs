use vstd::prelude::*;
use crate::automaton::{table_wf, FuzzyAhoCorasick, MAX_BEAM};
use crate::builder::FuzzyAhoCorasickBuilder;
use crate::matches::{match_valid, FuzzyMatch, FuzzyMatches};
use crate::replacer::{replace_applied, replaced_fold, FuzzyReplacer};
use crate::score::{MAX_PENALTY, SCALE};
use crate::segment::{seg_text, segments_ok, segs_text, Segment};
use crate::search::{exact_complete};
use crate::select::{default_le, nolap_fold, pairwise_disjoint, sorted_by_start};
use crate::structs::{limits_wf, pattern_wf, Pattern};
use crate::text::{byte_len, strs_of};
use crate::textops::{segment_text_fold, strip_postfix_spec, strip_prefix_fold, unmatched_texts};

verus! {

/// What a non-overlapping search for `hs` at threshold `t` leaves in `ms`:
/// valid, disjoint, start-ordered matches that arise as the greedy
/// non-overlap selection over some default-ranked list of valid matches that
/// reports every exact occurrence above the threshold.
pub open spec fn nolap_post(
    eng: FuzzyAhoCorasick,
    hs: Seq<char>,
    t: int,
    ms: FuzzyMatches,
) -> bool {
    &&& ms.wf()
    &&& ms.haystack@ == hs
    &&& pairwise_disjoint(ms.inner@)
    &&& sorted_by_start(ms.inner@)
    &&& forall|k: int| 0 <= k < ms.inner@.len() ==> match_valid(eng, hs, t, #[trigger] ms.inner@[k])
    &&& exists|sorted: Seq<FuzzyMatch>|
        {
            &&& (forall|k: int|
                0 <= k < sorted.len() ==> match_valid(eng, hs, t, #[trigger] sorted[k]))
            &&& (forall|k: int|
                0 <= k < sorted.len() - 1 ==> default_le(#[trigger] sorted[k], sorted[k + 1]))
            &&& exact_complete(eng, hs, t, sorted)
            &&& ms.inner@ == #[trigger] nolap_fold(sorted, sorted.len() as int)
        }
}

impl FuzzyAhoCorasick {
    /// Splits the haystack into matched and unmatched segments around the
    /// non-overlapping fuzzy matches; the segment texts concatenate back to
    /// the haystack, and every matched segment carries a valid match above
    /// the threshold.
    pub fn segment_iter(&self, haystack: &str, threshold: u32) -> (r: Vec<Segment>)
        requires
            self.wf(),
        ensures
            segs_text(r@) == haystack@,
            forall|k: int|
                0 <= k < r@.len() ==> match #[trigger] r@[k] {
                    Segment::Matched(m) => match_valid(
                        *self,
                        haystack@,
                        threshold as int,
                        m,
                    ),
                    Segment::Unmatched(u) => u.start < u.end <= byte_len(haystack@) && byte_len(
                        u.text@,
                    ) == u.end - u.start,
                },
            forall|k: int| 0 <= k < r@.len() ==> seg_text(#[trigger] r@[k]).len() > 0,
    {
        let ms = self.search_non_overlapping(haystack, threshold);
        let ghost msg = ms;
        let segs = ms.segment_iter();
        proof {
            assert forall|k: int| 0 <= k < segs@.len() implies match #[trigger] segs@[k] {
                Segment::Matched(m) => match_valid(*self, haystack@, threshold as int, m),
                Segment::Unmatched(u) => u.start < u.end <= byte_len(haystack@) && byte_len(
                    u.text@,
                ) == u.end - u.start,
            } by {
                match segs@[k] {
                    Segment::Matched(m) => {
                        let q = choose|q: int|
                            0 <= q < msg.inner@.len() && m == msg.inner@[q];
                    },
                    Segment::Unmatched(_) => {},
                }
            }
        }
        segs
    }

    /// Reassembles the haystack with single spaces separating the fuzzy
    /// matches from their surroundings.
    pub fn segment_text(&self, haystack: &str, threshold: u32) -> (r: String)
        requires
            self.wf(),
        ensures
            exists|ms: FuzzyMatches, segs: Seq<Segment>|
                {
                    &&& nolap_post(*self, haystack@, threshold as int, ms)
                    &&& #[trigger] segments_ok(ms, segs)
                    &&& r@ == segment_text_fold(segs, 0, Seq::empty(), false)
                },
    {
        let ms = self.search_non_overlapping(haystack, threshold);
        let ghost msg = ms;
        let r = ms.segment_text();
        proof {
            assert(nolap_post(*self, haystack@, threshold as int, msg));
        }
        r
    }

    /// Strips any leading fuzzy-matched prefix (and leading whitespace) and
    /// returns the remainder.
    pub fn strip_prefix(&self, haystack: &str, threshold: u32) -> (r: String)
        requires
            self.wf(),
        ensures
            exists|ms: FuzzyMatches, segs: Seq<Segment>|
                {
                    &&& nolap_post(*self, haystack@, threshold as int, ms)
                    &&& #[trigger] segments_ok(ms, segs)
                    &&& r@ == strip_prefix_fold(segs, 0, Seq::empty(), true)
                },
    {
        let ms = self.search_non_overlapping(haystack, threshold);
        let ghost msg = ms;
        let r = ms.strip_prefix();
        proof {
            assert(nolap_post(*self, haystack@, threshold as int, msg));
        }
        r
    }

    /// Strips any trailing fuzzy-matched suffix (and trailing whitespace) and
    /// returns the leading portion.
    pub fn strip_postfix(&self, haystack: &str, threshold: u32) -> (r: String)
        requires
            self.wf(),
        ensures
            exists|ms: FuzzyMatches, segs: Seq<Segment>|
                {
                    &&& nolap_post(*self, haystack@, threshold as int, ms)
                    &&& #[trigger] segments_ok(ms, segs)
                    &&& r@ == strip_postfix_spec(segs)
                },
    {
        let ms = self.search_non_overlapping(haystack, threshold);
        let ghost msg = ms;
        let r = ms.strip_postfix();
        proof {
            assert(nolap_post(*self, haystack@, threshold as int, msg));
        }
        r
    }

    /// Splits the haystack into its unmatched stretches, treating each fuzzy
    /// match as a separator.
    pub fn split(&self, haystack: &str, threshold: u32) -> (r: Vec<String>)
        requires
            self.wf(),
        ensures
            exists|ms: FuzzyMatches, segs: Seq<Segment>|
                {
                    &&& nolap_post(*self, haystack@, threshold as int, ms)
                    &&& #[trigger] segments_ok(ms, segs)
                    &&& Seq::new(r@.len(), |i: int| r@[i]@) == unmatched_texts(segs)
                },
    {
        let ms = self.search_non_overlapping(haystack, threshold);
        let ghost msg = ms;
        let r = ms.split();
        proof {
            assert(nolap_post(*self, haystack@, threshold as int, msg));
        }
        r
    }

    /// Find-and-replace: replaces each non-overlapping fuzzy match by what
    /// the callback returns for it, keeping the matched text when it returns
    /// nothing.
    pub fn replace<F: Fn(&FuzzyMatch) -> Option<String>>(
        &self,
        text: &str,
        callback: F,
        threshold: u32,
    ) -> (r: String)
        requires
            self.wf(),
            forall|m: &FuzzyMatch| #[trigger] callback.requires((m,)),
        ensures
            exists|ms: FuzzyMatches, outs: Seq<Option<String>>|
                {
                    &&& nolap_post(*self, text@, threshold as int, ms)
                    &&& outs.len() == ms.inner@.len()
                    &&& (forall|i: int|
                        0 <= i < outs.len() && replace_applied(ms.inner@, i) ==> call_ensures(
                            callback,
                            (&ms.inner@[i],),
                            #[trigger] outs[i],
                        ))
                    &&& r@ == #[trigger] replaced_fold(
                        strs_of(ms.graphemes@),
                        ms.inner@,
                        outs,
                        0,
                        0,
                        Seq::empty(),
                    )
                },
    {
        let ms = self.search_non_overlapping(text, threshold);
        let ghost msg = ms;
        let r = ms.replace(callback);
        proof {
            assert(nolap_post(*self, text@, threshold as int, msg));
        }
        r
    }
}

impl FuzzyAhoCorasickBuilder {
    /// Builds a [`FuzzyReplacer`] from pattern/replacement pairs: the engine
    /// over the patterns, with one replacement per pattern.
    pub fn build_replacer(self, pairs: Vec<(Pattern, String)>) -> (r: FuzzyReplacer)
        requires
            1 <= pairs@.len(),
            forall|p: int| 0 <= p < pairs@.len() ==> pattern_wf((#[trigger] pairs@[p]).0),
            limits_wf(self.limits),
            self.penalties.insertion <= MAX_PENALTY,
            self.penalties.deletion <= MAX_PENALTY,
            self.penalties.substitution <= MAX_PENALTY,
            self.penalties.swap <= MAX_PENALTY,
            match self.similarity {
                Some(t) => table_wf(t),
                None => true,
            },
            match self.beam_width {
                Some(b) => 1 <= b <= MAX_BEAM,
                None => true,
            },
        ensures
            r.engine.wf(),
            r.engine.patterns@.len() == pairs@.len(),
            forall|p: int|
                0 <= p < pairs@.len() ==> crate::builder::pattern_built(
                    (#[trigger] pairs@[p]).0,
                    r.engine.patterns@[p],
                ),
            r.replacements@.len() == pairs@.len(),
            forall|p: int| 0 <= p < pairs@.len() ==> r.replacements@[p] == (#[trigger] pairs@[p]).1,
    {
        let mut patterns: Vec<Pattern> = Vec::new();
        let mut replacements: Vec<String> = Vec::new();
        let mut i: usize = 0;
        while i < pairs.len()
            invariant
                i <= pairs@.len(),
                patterns@.len() == i,
                replacements@.len() == i,
                forall|p: int| 0 <= p < i ==> patterns@[p] == (#[trigger] pairs@[p]).0,
                forall|p: int| 0 <= p < i ==> replacements@[p] == (#[trigger] pairs@[p]).1,
            decreases pairs@.len() - i,
        {
            let (p, rtext) = (
                crate::matches::copy_pattern(&pairs[i].0),
                pairs[i].1.clone(),
            );
            patterns.push(p);
            replacements.push(rtext);
            i = i + 1;
        }
        proof {
            assert forall|p: int| 0 <= p < patterns@.len() implies pattern_wf(
                #[trigger] patterns@[p],
            ) by {
                assert(patterns@[p] == pairs@[p].0);
            }
        }
        let engine = self.build(patterns);
        FuzzyReplacer { engine, replacements }
    }
}

} // verus!
