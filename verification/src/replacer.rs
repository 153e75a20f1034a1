use vstd::prelude::*;
use vstd::string::StringExecFns;
use crate::matches::{copy_match, FuzzyMatch, FuzzyMatches};
use crate::text::{concat_range, strs_of};

verus! {

/// The grapheme index just past the last applied match among the first `i`
/// matches: a match is applied when it starts at or after that point, as the
/// replacement walk does.
pub open spec fn kept_end(ms: Seq<FuzzyMatch>, i: int) -> int
    decreases i,
{
    if i <= 0 {
        0
    } else if ms[i - 1].grapheme_start >= kept_end(ms, i - 1) {
        ms[i - 1].grapheme_end as int
    } else {
        kept_end(ms, i - 1)
    }
}

/// Whether the replacement walk applies match `i`.
pub open spec fn replace_applied(ms: Seq<FuzzyMatch>, i: int) -> bool {
    ms[i].grapheme_start >= kept_end(ms, i)
}

/// The text the replacement walk produces from position `i` on: the gap up to
/// each applied match, then its replacement (or its own text when none), and
/// finally the tail of the haystack.
pub open spec fn replaced_fold(
    gs: Seq<Seq<char>>,
    ms: Seq<FuzzyMatch>,
    outs: Seq<Option<String>>,
    i: int,
    last: int,
    acc: Seq<char>,
) -> Seq<char>
    decreases ms.len() - i,
{
    if i < 0 || i >= ms.len() {
        acc + gs.subrange(last, gs.len() as int).flatten()
    } else if ms[i].grapheme_start >= last {
        replaced_fold(
            gs,
            ms,
            outs,
            i + 1,
            ms[i].grapheme_end as int,
            acc + gs.subrange(last, ms[i].grapheme_start as int).flatten() + (match outs[i] {
                Some(o) => o@,
                None => ms[i].text@,
            }),
        )
    } else {
        replaced_fold(gs, ms, outs, i + 1, last, acc)
    }
}

impl FuzzyMatches {
    /// Find-and-replace over the match list: walks the matches in order,
    /// skips any that overlap an already applied one, and replaces each
    /// applied match by what the callback returns for it, keeping the matched
    /// text when it returns nothing.
    #[verifier::loop_isolation(false)]
    pub fn replace<F: Fn(&FuzzyMatch) -> Option<String>>(&self, callback: F) -> (r: String)
        requires
            self.wf(),
            forall|m: &FuzzyMatch| #[trigger] callback.requires((m,)),
        ensures
            exists|outs: Seq<Option<String>>|
                {
                    &&& outs.len() == self.inner@.len()
                    &&& (forall|i: int|
                        0 <= i < outs.len() && replace_applied(self.inner@, i) ==> call_ensures(
                            callback,
                            (&self.inner@[i],),
                            #[trigger] outs[i],
                        ))
                    &&& r@ == replaced_fold(
                        strs_of(self.graphemes@),
                        self.inner@,
                        outs,
                        0,
                        0,
                        Seq::empty(),
                    )
                },
    {
        let ghost gs = strs_of(self.graphemes@);
        let ghost ms = self.inner@;
        let n = self.graphemes.len();
        let mut result = String::new();
        let mut last_g: usize = 0;
        let ghost mut outs: Seq<Option<String>> = Seq::empty();
        let mut i: usize = 0;
        while i < self.inner.len()
            invariant
                i <= ms.len() == self.inner@.len(),
                self.inner@ == ms,
                outs.len() == i,
                last_g == kept_end(ms, i as int),
                last_g <= n,
                forall|q: int|
                    0 <= q < i && replace_applied(ms, q) ==> call_ensures(
                        callback,
                        (&ms[q],),
                        #[trigger] outs[q],
                    ),
                forall|rest: Seq<Option<String>>|
                    replaced_fold(gs, ms, #[trigger] (outs + rest), 0, 0, Seq::empty())
                        == replaced_fold(gs, ms, outs + rest, i as int, last_g as int, result@),
            decreases ms.len() - i,
        {
            let ghost outs0 = outs;
            let ghost acc0 = result@;
            let ghost last0 = last_g as int;
            let m = copy_match(&self.inner[i]);
            if m.grapheme_start >= last_g {
                let gap = concat_range(&self.graphemes, last_g, m.grapheme_start);
                result.append(gap.as_str());
                let out = callback(&self.inner[i]);
                proof {
                    outs = outs.push(out);
                }
                match out {
                    Some(repl) => {
                        result.append(repl.as_str());
                    },
                    None => {
                        result.append(m.text.as_str());
                    },
                }
                last_g = m.grapheme_end;
            } else {
                proof {
                    outs = outs.push(None);
                }
            }
            i = i + 1;
            proof {
                assert forall|rest: Seq<Option<String>>|
                    replaced_fold(gs, ms, #[trigger] (outs + rest), 0, 0, Seq::empty())
                        == replaced_fold(
                        gs,
                        ms,
                        outs + rest,
                        i as int,
                        last_g as int,
                        result@,
                    ) by {
                    let whole = outs + rest;
                    let prev_rest = seq![whole[i - 1]] + rest;
                    assert(outs0 + prev_rest =~= whole);
                    assert(replaced_fold(gs, ms, whole, 0, 0, Seq::empty()) == replaced_fold(
                        gs,
                        ms,
                        whole,
                        i - 1,
                        last0,
                        acc0,
                    ));
                }
            }
        }
        let tail = concat_range(&self.graphemes, last_g, n);
        result.append(tail.as_str());
        proof {
            assert(outs + Seq::<Option<String>>::empty() =~= outs);
            assert(gs.subrange(last_g as int, gs.len() as int) == strs_of(
                self.graphemes@,
            ).subrange(last_g as int, n as int));
        }
        result
    }
}

/// A find-and-replace engine: a fuzzy automaton over the patterns, paired
/// with one replacement string per pattern.
#[derive(Debug)]
pub struct FuzzyReplacer {
    /// The automaton over the patterns.
    pub engine: crate::automaton::FuzzyAhoCorasick,
    /// `replacements[i]` replaces matches of pattern `i`.
    pub replacements: Vec<String>,
}

impl FuzzyReplacer {
    /// The underlying automaton.
    pub fn engine(&self) -> (r: &crate::automaton::FuzzyAhoCorasick)
        ensures
            r == &self.engine,
    {
        &self.engine
    }

    /// Replaces every selected fuzzy match of pattern `i` in `text` by
    /// `replacements[i]`; matches are selected non-overlapping, best first.
    pub fn replace(&self, text: &str, threshold: u32) -> (r: String)
        requires
            self.engine.wf(),
        ensures
            exists|ms: FuzzyMatches, outs: Seq<Option<String>>|
                {
                    &&& crate::engine_ops::nolap_post(self.engine, text@, threshold as int, ms)
                    &&& outs.len() == ms.inner@.len()
                    &&& (forall|i: int|
                        0 <= i < outs.len() ==> #[trigger] outs[i] == (if ms.inner@[i].pattern_index
                            < self.replacements@.len() {
                            Some(self.replacements@[ms.inner@[i].pattern_index as int])
                        } else {
                            None
                        }))
                    &&& r@ == replaced_fold(
                        strs_of(ms.graphemes@),
                        ms.inner@,
                        outs,
                        0,
                        0,
                        Seq::empty(),
                    )
                },
    {
        let matches = self.engine.search_non_overlapping(text, threshold);
        let reps = &self.replacements;
        let f = |m: &FuzzyMatch| -> (out: Option<String>)
            ensures
                out == (if m.pattern_index < reps@.len() {
                    Some(reps@[m.pattern_index as int])
                } else {
                    None
                }),
            {
                if m.pattern_index < reps.len() {
                    Some(reps[m.pattern_index].clone())
                } else {
                    None
                }
            };
        let r = matches.replace(f);
        proof {
            let outs = choose|outs: Seq<Option<String>>|
                {
                    &&& outs.len() == matches.inner@.len()
                    &&& (forall|i: int|
                        0 <= i < outs.len() && replace_applied(matches.inner@, i) ==> call_ensures(
                            f,
                            (&matches.inner@[i],),
                            #[trigger] outs[i],
                        ))
                    &&& r@ == replaced_fold(
                        strs_of(matches.graphemes@),
                        matches.inner@,
                        outs,
                        0,
                        0,
                        Seq::empty(),
                    )
                };
            lemma_all_applied(text@, matches.graphemes@, matches.inner@);
            assert forall|i: int| 0 <= i < outs.len() implies #[trigger] outs[i] == (if
            matches.inner@[i].pattern_index < self.replacements@.len() {
                Some(self.replacements@[matches.inner@[i].pattern_index as int])
            } else {
                None
            }) by {
                assert(replace_applied(matches.inner@, i));
            }
        }
        r
    }
}

/// In a sorted, pairwise-disjoint, well-formed match list the replacement
/// walk applies every match.
pub proof fn lemma_all_applied(hs: Seq<char>, g: Seq<(usize, String)>, ms: Seq<FuzzyMatch>)
    requires
        crate::text::grapheme_split_post(hs, g),
        crate::select::pairwise_disjoint(ms),
        crate::select::sorted_by_start(ms),
        forall|k: int| 0 <= k < ms.len() ==> crate::matches::match_span_ok(hs, #[trigger] ms[k]),
    ensures
        forall|i: int| 0 <= i < ms.len() ==> replace_applied(ms, i),
{
    assert forall|i: int| 0 <= i < ms.len() implies replace_applied(ms, i) by {
        lemma_kept_end_applied(hs, g, ms, i);
    }
}

/// Under the same hypotheses, after `i` matches the walk stands at the end of
/// match `i - 1`, and match `i` starts at or after it.
proof fn lemma_kept_end_applied(hs: Seq<char>, g: Seq<(usize, String)>, ms: Seq<FuzzyMatch>, i: int)
    requires
        crate::text::grapheme_split_post(hs, g),
        crate::select::pairwise_disjoint(ms),
        crate::select::sorted_by_start(ms),
        forall|k: int| 0 <= k < ms.len() ==> crate::matches::match_span_ok(hs, #[trigger] ms[k]),
        0 <= i < ms.len(),
    ensures
        replace_applied(ms, i),
        kept_end(ms, i + 1) == ms[i].grapheme_end,
    decreases i,
{
    if i == 0 {
        assert(kept_end(ms, 0) == 0);
    } else {
        lemma_kept_end_applied(hs, g, ms, i - 1);
        crate::segment::lemma_between_sorted_disjoint(hs, g, ms, i - 1, i);
    }
}

} // verus!
