use vstd::prelude::*;
use vstd::seq_lib::lemma_flatten_concat;
use crate::matches::{copy_match, lemma_match_span_bytes, FuzzyMatch, FuzzyMatches};
use crate::select::{from_list, pairwise_disjoint, sorted_by_start};
use crate::text::{
    byte_len, concat_range, grapheme_split_post, graphemes_of, gstart, lemma_gstart_bounds,
    lemma_gstart_end, str_byte_len, strs_of,
};

verus! {

/// One piece of the haystack: either an accepted fuzzy match or the gap
/// between two of them.
#[derive(Debug)]
pub enum Segment {
    Matched(FuzzyMatch),
    Unmatched(UnmatchedSegment),
}

/// A maximal stretch of the haystack not covered by any match.
#[derive(Debug)]
pub struct UnmatchedSegment {
    /// Inclusive start byte index.
    pub start: usize,
    /// Exclusive end byte index.
    pub end: usize,
    /// The slice of the original text.
    pub text: String,
}

/// The text a segment carries.
pub open spec fn seg_text(s: Segment) -> Seq<char> {
    match s {
        Segment::Matched(m) => m.text@,
        Segment::Unmatched(u) => u.text@,
    }
}

/// The concatenation of the texts of a segment list.
pub open spec fn segs_text(ss: Seq<Segment>) -> Seq<char>
    decreases ss.len(),
{
    if ss.len() == 0 {
        Seq::empty()
    } else {
        seg_text(ss[0]) + segs_text(ss.drop_first())
    }
}

/// Appending one segment appends its text.
pub proof fn lemma_segs_text_push(ss: Seq<Segment>, x: Segment)
    ensures
        segs_text(ss.push(x)) == segs_text(ss) + seg_text(x),
    decreases ss.len(),
{
    if ss.len() == 0 {
        assert(ss.push(x)[0] == x);
        assert(ss.push(x).drop_first() =~= Seq::<Segment>::empty());
        assert(segs_text(ss.push(x)) == seg_text(x) + segs_text(Seq::<Segment>::empty()));
        assert(seg_text(x) + Seq::<char>::empty() =~= seg_text(x));
        assert(segs_text(ss) + seg_text(x) =~= seg_text(x));
    } else {
        assert(ss.push(x).drop_first() =~= ss.drop_first().push(x));
        lemma_segs_text_push(ss.drop_first(), x);
        assert(segs_text(ss.push(x)) =~= segs_text(ss) + seg_text(x));
    }
}

impl Segment {
    /// The match inside, if this is a matched segment.
    pub fn matched(&self) -> (r: Option<&FuzzyMatch>)
        ensures
            match self {
                Segment::Matched(m) => r == Some(m),
                Segment::Unmatched(_) => r is None,
            },
    {
        match self {
            Segment::Matched(m) => Some(m),
            Segment::Unmatched(_) => None,
        }
    }

    /// The gap inside, if this is an unmatched segment.
    pub fn unmatched(&self) -> (r: Option<&UnmatchedSegment>)
        ensures
            match self {
                Segment::Unmatched(u) => r == Some(u),
                Segment::Matched(_) => r is None,
            },
    {
        match self {
            Segment::Unmatched(u) => Some(u),
            Segment::Matched(_) => None,
        }
    }

    /// The segment's text.
    pub fn as_str(&self) -> (r: &str)
        ensures
            r@ == seg_text(*self),
    {
        match self {
            Segment::Matched(m) => m.text.as_str(),
            Segment::Unmatched(u) => u.text.as_str(),
        }
    }

    /// The segment's text length in bytes.
    pub fn len(&self) -> (r: usize)
        requires
            byte_len(seg_text(*self)) <= usize::MAX,
        ensures
            r == byte_len(seg_text(*self)),
    {
        str_byte_len(self.as_str())
    }

    /// Whether the segment's text is empty.
    pub fn is_empty(&self) -> (r: bool)
        ensures
            r == (seg_text(*self).len() == 0),
    {
        self.as_str().is_empty()
    }
}

/// The matches the segments carry, in order.
pub open spec fn matched_of(segs: Seq<Segment>) -> Seq<FuzzyMatch>
    decreases segs.len(),
{
    if segs.len() == 0 {
        Seq::empty()
    } else {
        match segs[0] {
            Segment::Matched(m) => seq![m] + matched_of(segs.drop_first()),
            Segment::Unmatched(_) => matched_of(segs.drop_first()),
        }
    }
}

/// Appending one segment appends its match, if it carries one.
pub proof fn lemma_matched_of_push(ss: Seq<Segment>, x: Segment)
    ensures
        matched_of(ss.push(x)) == match x {
            Segment::Matched(m) => matched_of(ss).push(m),
            Segment::Unmatched(_) => matched_of(ss),
        },
    decreases ss.len(),
{
    if ss.len() == 0 {
        assert(ss.push(x)[0] == x);
        assert(ss.push(x).drop_first() =~= Seq::<Segment>::empty());
        match x {
            Segment::Matched(m) => {
                assert(matched_of(ss.push(x)) == seq![m] + matched_of(
                    Seq::<Segment>::empty(),
                ));
                assert(seq![m] + Seq::<FuzzyMatch>::empty() =~= matched_of(ss).push(m));
            },
            Segment::Unmatched(_) => {
                assert(matched_of(ss.push(x)) == matched_of(Seq::<Segment>::empty()));
                assert(matched_of(Seq::<Segment>::empty()) =~= matched_of(ss));
            },
        }
    } else {
        assert(ss.push(x)[0] == ss[0]);
        assert(ss.push(x).drop_first() =~= ss.drop_first().push(x));
        lemma_matched_of_push(ss.drop_first(), x);
        match x {
            Segment::Matched(m) => {
                match ss[0] {
                    Segment::Matched(m0) => {
                        assert(matched_of(ss.push(x)) == seq![m0] + matched_of(
                            ss.drop_first(),
                        ).push(m));
                        assert(seq![m0] + matched_of(ss.drop_first()).push(m) =~= (seq![m0]
                            + matched_of(ss.drop_first())).push(m));
                    },
                    Segment::Unmatched(_) => {},
                }
            },
            Segment::Unmatched(_) => {},
        }
    }
}

/// No two unmatched segments stand next to each other: gaps are maximal.
pub open spec fn no_adjacent_gaps(segs: Seq<Segment>) -> bool {
    forall|k: int|
        0 <= k < segs.len() - 1 ==> !((#[trigger] segs[k]) is Unmatched && segs[k + 1] is Unmatched)
}

/// What the segmentation of a match list guarantees: every matched segment is
/// one of the matches; every segment's text is nonempty, and an unmatched
/// segment's text fills exactly its byte span inside the haystack; gaps are
/// maximal; and when the matches are sorted and pairwise disjoint, the
/// matched segments are exactly the matches in order and the segment texts
/// concatenate back to the whole haystack.
pub open spec fn segments_ok(ms: FuzzyMatches, segs: Seq<Segment>) -> bool {
    &&& forall|k: int|
        0 <= k < segs.len() ==> match #[trigger] segs[k] {
            Segment::Matched(m) => from_list(m, ms.inner@),
            Segment::Unmatched(u) => u.start < u.end <= byte_len(ms.haystack@) && byte_len(u.text@)
                == u.end - u.start,
        }
    &&& forall|k: int| 0 <= k < segs.len() ==> seg_text(#[trigger] segs[k]).len() > 0
    &&& no_adjacent_gaps(segs)
    &&& (pairwise_disjoint(ms.inner@) && sorted_by_start(ms.inner@)) ==> segs_text(segs)
        == ms.haystack@
    &&& (pairwise_disjoint(ms.inner@) && sorted_by_start(ms.inner@)) ==> matched_of(segs)
        == ms.inner@
}

impl FuzzyMatches {
    /// Splits the haystack into interleaved matched and unmatched segments,
    /// walking the matches in their current order and skipping any match that
    /// begins before the previous one ended. On a sorted, non-overlapping
    /// list the segments cover the haystack exactly.
    #[verifier::loop_isolation(false)]
    #[verifier::rlimit(100)]
    pub fn segment_iter(self) -> (r: Vec<Segment>)
        requires
            self.wf(),
        ensures
            segments_ok(self, r@),
    {
        let ghost hs = self.haystack@;
        let ghost gs = graphemes_of(hs);
        let ghost sd = pairwise_disjoint(self.inner@) && sorted_by_start(self.inner@);
        let n = self.graphemes.len();
        proof {
            assert(strs_of(self.graphemes@) =~= gs);
            assert(gs.subrange(0, 0) =~= Seq::<Seq<char>>::empty());
            assert(Seq::<Seq<char>>::empty().flatten() =~= Seq::<char>::empty());
        }
        let mut segments: Vec<Segment> = Vec::new();
        let mut last_g: usize = 0;
        let mut i: usize = 0;
        while i < self.inner.len()
            invariant
                i <= self.inner@.len(),
                last_g <= n,
                forall|k: int|
                    0 <= k < segments@.len() ==> match #[trigger] segments@[k] {
                        Segment::Matched(m) => from_list(m, self.inner@),
                        Segment::Unmatched(u) => u.start < u.end <= byte_len(hs) && byte_len(
                            u.text@,
                        ) == u.end - u.start,
                    },
                forall|k: int| 0 <= k < segments@.len() ==> seg_text(#[trigger] segments@[k]).len() > 0,
                no_adjacent_gaps(segments@),
                segments@.len() > 0 ==> segments@.last() is Matched,
                sd ==> segs_text(segments@) == gs.subrange(0, last_g as int).flatten(),
                sd ==> matched_of(segments@) == self.inner@.subrange(0, i as int),
                sd ==> forall|q: int|
                    i <= q < self.inner@.len() ==> last_g <= (#[trigger] self.inner@[q]).grapheme_start,
            decreases self.inner@.len() - i,
        {
            let m = copy_match(&self.inner[i]);
            if m.grapheme_start >= last_g {
                let ghost segs0 = segments@;
                let ghost last0 = last_g as int;
                if m.grapheme_start > last_g {
                    let text = concat_range(&self.graphemes, last_g, m.grapheme_start);
                    let s_byte = self.graphemes[last_g].0;
                    let e_byte = self.graphemes[m.grapheme_start].0;
                    proof {
                        crate::text::lemma_match_text_bound(
                            hs,
                            self.graphemes@,
                            last_g as int,
                            m.grapheme_start as int,
                        );
                        lemma_gstart_end(hs, self.graphemes@, m.grapheme_start as int);
                    }
                    let u = UnmatchedSegment { start: s_byte, end: e_byte, text };
                    proof {
                        lemma_segs_text_push(segments@, Segment::Unmatched(u));
                        lemma_matched_of_push(segments@, Segment::Unmatched(u));
                    }
                    segments.push(Segment::Unmatched(u));
                }
                proof {
                    lemma_segs_text_push(segments@, Segment::Matched(m));
                    lemma_matched_of_push(segments@, Segment::Matched(m));
                    if sd {
                        assert(self.inner@.subrange(0, i + 1) =~= self.inner@.subrange(
                            0,
                            i as int,
                        ).push(self.inner@[i as int]));
                    }
                    if sd {
                        assert(gs.subrange(0, m.grapheme_end as int) =~= gs.subrange(
                            0,
                            last0,
                        ) + gs.subrange(last0, m.grapheme_start as int) + gs.subrange(
                            m.grapheme_start as int,
                            m.grapheme_end as int,
                        ));
                        lemma_flatten_concat(
                            gs.subrange(0, last0) + gs.subrange(last0, m.grapheme_start as int),
                            gs.subrange(m.grapheme_start as int, m.grapheme_end as int),
                        );
                        lemma_flatten_concat(
                            gs.subrange(0, last0),
                            gs.subrange(last0, m.grapheme_start as int),
                        );
                    }
                    lemma_match_span_bytes(hs, self.graphemes@, self.inner@[i as int]);
                }
                last_g = m.grapheme_end;
                segments.push(Segment::Matched(m));
                proof {
                    if sd {
                        assert forall|q: int|
                            i + 1 <= q < self.inner@.len() implies last_g <= (
                        #[trigger] self.inner@[q]).grapheme_start by {
                            lemma_between_sorted_disjoint(
                                hs,
                                self.graphemes@,
                                self.inner@,
                                i as int,
                                q,
                            );
                        }
                    }
                }
            } else {
                proof {
                    if sd {
                        assert(last_g <= self.inner@[i as int].grapheme_start);
                    }
                }
            }
            i = i + 1;
        }
        if last_g < n {
            let text = concat_range(&self.graphemes, last_g, n);
            let s_byte = self.graphemes[last_g].0;
            let e_byte = str_byte_len(self.haystack.as_str());
            proof {
                crate::text::lemma_match_text_bound(hs, self.graphemes@, last_g as int, n as int);
                lemma_gstart_end(hs, self.graphemes@, n as int);
            }
            let u = UnmatchedSegment { start: s_byte, end: e_byte, text };
            proof {
                lemma_segs_text_push(segments@, Segment::Unmatched(u));
                lemma_matched_of_push(segments@, Segment::Unmatched(u));
                if sd {
                    assert(gs.subrange(0, n as int) =~= gs.subrange(0, last_g as int) + gs.subrange(
                        last_g as int,
                        n as int,
                    ));
                    lemma_flatten_concat(
                        gs.subrange(0, last_g as int),
                        gs.subrange(last_g as int, n as int),
                    );
                }
            }
            segments.push(Segment::Unmatched(u));
        }
        proof {
            if sd {
                assert(gs.subrange(0, n as int) =~= gs);
                assert(self.inner@.subrange(0, self.inner@.len() as int) =~= self.inner@);
            }
        }
        segments
    }
}

/// In a sorted, pairwise-disjoint, well-formed match list, every later match
/// begins at or after the end of an earlier one.
pub(crate) proof fn lemma_between_sorted_disjoint(
    hs: Seq<char>,
    g: Seq<(usize, String)>,
    ms: Seq<FuzzyMatch>,
    i: int,
    q: int,
)
    requires
        grapheme_split_post(hs, g),
        pairwise_disjoint(ms),
        sorted_by_start(ms),
        0 <= i < q < ms.len(),
        crate::matches::match_span_ok(hs, ms[i]),
        crate::matches::match_span_ok(hs, ms[q]),
    ensures
        ms[i].grapheme_end <= ms[q].grapheme_start,
{
    lemma_match_span_bytes(hs, g, ms[i]);
    lemma_match_span_bytes(hs, g, ms[q]);
    assert(crate::select::disjoint_spans(ms[i], ms[q]));
    lemma_sorted_prefix(ms, i, q);
    assert(ms[i].end <= ms[q].start);
    if ms[i].grapheme_end > ms[q].grapheme_start {
        lemma_gstart_bounds(hs, g, ms[q].grapheme_start as int, ms[i].grapheme_end as int);
    }
}

/// Adjacent ordering by start extends to any pair of positions.
proof fn lemma_sorted_prefix(ms: Seq<FuzzyMatch>, i: int, q: int)
    requires
        sorted_by_start(ms),
        0 <= i <= q < ms.len(),
    ensures
        ms[i].start <= ms[q].start,
    decreases q - i,
{
    if i < q {
        lemma_sorted_prefix(ms, i + 1, q);
    }
}

} // verus!
