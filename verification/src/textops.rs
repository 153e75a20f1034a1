use vstd::prelude::*;
use vstd::string::{StrSliceExecFns, StringExecFns};
use crate::matches::FuzzyMatches;
use crate::segment::{seg_text, Segment};
use crate::text::{char_is_whitespace, is_unicode_space};

verus! {

/// Whether every character of the text is Unicode whitespace.
pub open spec fn all_space(s: Seq<char>) -> bool {
    forall|i: int| 0 <= i < s.len() ==> is_unicode_space(#[trigger] s[i])
}

/// The text with its leading whitespace removed.
pub open spec fn trim_start_spec(s: Seq<char>) -> Seq<char>
    decreases s.len(),
{
    if s.len() > 0 && is_unicode_space(s[0]) {
        trim_start_spec(s.drop_first())
    } else {
        s
    }
}

/// The text with its trailing whitespace removed.
pub open spec fn trim_end_spec(s: Seq<char>) -> Seq<char>
    decreases s.len(),
{
    if s.len() > 0 && is_unicode_space(s.last()) {
        trim_end_spec(s.drop_last())
    } else {
        s
    }
}

/// Dropping a whitespace prefix of known length trims to the remainder.
proof fn lemma_trim_start_skip(s: Seq<char>, k: int)
    requires
        0 <= k <= s.len(),
        forall|i: int| 0 <= i < k ==> is_unicode_space(#[trigger] s[i]),
        k == s.len() || !is_unicode_space(s[k]),
    ensures
        trim_start_spec(s) == s.skip(k),
    decreases k,
{
    if k == 0 {
        assert(s.skip(0) =~= s);
    } else {
        assert(is_unicode_space(s[0]));
        lemma_trim_start_skip(s.drop_first(), k - 1);
        assert(s.drop_first().skip(k - 1) =~= s.skip(k));
    }
}

/// Dropping a whitespace suffix of known start trims to the front part.
proof fn lemma_trim_end_take(s: Seq<char>, k: int)
    requires
        0 <= k <= s.len(),
        forall|i: int| k <= i < s.len() ==> is_unicode_space(#[trigger] s[i]),
        k == 0 || !is_unicode_space(s[k - 1]),
    ensures
        trim_end_spec(s) == s.take(k),
    decreases s.len() - k,
{
    if k == s.len() {
        assert(s.take(k) =~= s);
    } else {
        assert(is_unicode_space(s.last()));
        lemma_trim_end_take(s.drop_last(), k);
        assert(s.drop_last().take(k) =~= s.take(k));
    }
}

/// Whether every character of the string is whitespace.
fn str_all_space(s: &str) -> (r: bool)
    ensures
        r == all_space(s@),
{
    let n = s.unicode_len();
    let mut k: usize = 0;
    while k < n
        invariant
            k <= n == s@.len(),
            forall|i: int| 0 <= i < k ==> is_unicode_space(#[trigger] s@[i]),
        decreases n - k,
    {
        if !char_is_whitespace(s.get_char(k)) {
            return false;
        }
        k = k + 1;
    }
    true
}

/// The string with its leading whitespace removed.
fn str_trim_start(s: &str) -> (r: String)
    ensures
        r@ == trim_start_spec(s@),
{
    let n = s.unicode_len();
    let mut k: usize = 0;
    while k < n && char_is_whitespace(s.get_char(k))
        invariant
            k <= n == s@.len(),
            forall|i: int| 0 <= i < k ==> is_unicode_space(#[trigger] s@[i]),
        decreases n - k,
    {
        k = k + 1;
    }
    proof {
        lemma_trim_start_skip(s@, k as int);
        assert(s@.subrange(k as int, s@.len() as int) =~= s@.skip(k as int));
    }
    let t = s.substring_char(k, n);
    t.to_owned()
}

/// The string with its trailing whitespace removed.
fn str_trim_end(s: &str) -> (r: String)
    ensures
        r@ == trim_end_spec(s@),
{
    let n = s.unicode_len();
    let mut k: usize = n;
    while k > 0 && char_is_whitespace(s.get_char(k - 1))
        invariant
            k <= n == s@.len(),
            forall|i: int| k <= i < n ==> is_unicode_space(#[trigger] s@[i]),
        decreases k,
    {
        k = k - 1;
    }
    proof {
        lemma_trim_end_take(s@, k as int);
        assert(s@.subrange(0, k as int) =~= s@.take(k as int));
    }
    let t = s.substring_char(0, k);
    t.to_owned()
}

/// Punctuation that should not receive a leading space when the haystack is
/// reassembled.
pub open spec fn is_gap_punct(c: char) -> bool {
    c == ',' || c == '.' || c == '?' || c == '!' || c == ';' || c == ':' || c == '\u{2014}' || c
        == '-' || c == '\u{2026}'
}

/// Whether the accumulated text ends with a plain space or a tab.
pub open spec fn ends_with_space_char(s: Seq<char>) -> bool {
    s.len() > 0 && (s.last() == ' ' || s.last() == '\t')
}

/// The reassembled text of the segments from `i` on, given the text built so
/// far and whether the previous segment was a match: a space separates two
/// matches, a match from preceding text that does not end in one, and a match
/// from following text that does not begin with joining punctuation.
pub open spec fn segment_text_fold(
    ss: Seq<Segment>,
    i: int,
    acc: Seq<char>,
    prev_matched: bool,
) -> Seq<char>
    decreases ss.len() - i,
{
    if i < 0 || i >= ss.len() {
        acc
    } else {
        match ss[i] {
            Segment::Matched(m) => {
                let acc2 = if prev_matched || (acc.len() > 0 && !ends_with_space_char(acc)) {
                    acc.push(' ')
                } else {
                    acc
                };
                segment_text_fold(ss, i + 1, acc2 + m.text@, true)
            },
            Segment::Unmatched(u) => {
                let acc2 = if prev_matched && !(u.text@.len() > 0 && is_gap_punct(u.text@[0])) {
                    acc.push(' ')
                } else {
                    acc
                };
                segment_text_fold(ss, i + 1, acc2 + u.text@, false)
            },
        }
    }
}

/// The remainder of the segments once every leading match and every leading
/// all-whitespace gap is dropped; the first kept gap loses its leading
/// whitespace.
pub open spec fn strip_prefix_fold(
    ss: Seq<Segment>,
    i: int,
    acc: Seq<char>,
    skipping: bool,
) -> Seq<char>
    decreases ss.len() - i,
{
    if i < 0 || i >= ss.len() {
        acc
    } else {
        match ss[i] {
            Segment::Matched(m) => if skipping {
                strip_prefix_fold(ss, i + 1, acc, true)
            } else {
                strip_prefix_fold(ss, i + 1, acc + m.text@, false)
            },
            Segment::Unmatched(u) => if skipping {
                if all_space(u.text@) {
                    strip_prefix_fold(ss, i + 1, acc, true)
                } else {
                    strip_prefix_fold(ss, i + 1, acc + trim_start_spec(u.text@), false)
                }
            } else {
                strip_prefix_fold(ss, i + 1, acc + u.text@, false)
            },
        }
    }
}

/// One past the position of the last gap that holds more than whitespace;
/// zero when there is none.
pub open spec fn keep_of(ss: Seq<Segment>) -> int
    decreases ss.len(),
{
    if ss.len() == 0 {
        0
    } else {
        match ss.last() {
            Segment::Unmatched(u) => if !all_space(u.text@) {
                ss.len() as int
            } else {
                keep_of(ss.drop_last())
            },
            Segment::Matched(_) => keep_of(ss.drop_last()),
        }
    }
}

/// The concatenated texts of the segments in `[i, j)`.
pub open spec fn concat_texts(ss: Seq<Segment>, i: int, j: int) -> Seq<char>
    decreases j - i,
{
    if i < 0 || i >= j || j > ss.len() {
        Seq::empty()
    } else {
        seg_text(ss[i]) + concat_texts(ss, i + 1, j)
    }
}

/// The leading portion of the segments up to the last non-whitespace gap,
/// with that gap's trailing whitespace removed.
pub open spec fn strip_postfix_spec(ss: Seq<Segment>) -> Seq<char> {
    let keep = keep_of(ss);
    if keep == 0 {
        Seq::empty()
    } else {
        concat_texts(ss, 0, keep - 1) + trim_end_spec(seg_text(ss[keep - 1]))
    }
}

/// The texts of the unmatched segments, in order.
pub open spec fn unmatched_texts(ss: Seq<Segment>) -> Seq<Seq<char>>
    decreases ss.len(),
{
    if ss.len() == 0 {
        Seq::empty()
    } else {
        match ss[0] {
            Segment::Unmatched(u) => seq![u.text@] + unmatched_texts(ss.drop_first()),
            Segment::Matched(_) => unmatched_texts(ss.drop_first()),
        }
    }
}

impl FuzzyMatches {
    /// Reassembles the haystack from the segments, inserting single spaces so
    /// that matches stay separated from their surroundings and from each
    /// other, except before joining punctuation.
    #[verifier::loop_isolation(false)]
    #[verifier::rlimit(60)]
    pub fn segment_text(self) -> (r: String)
        requires
            self.wf(),
        ensures
            exists|segs: Seq<Segment>|
                #[trigger] crate::segment::segments_ok(self, segs) && r@ == segment_text_fold(
                    segs,
                    0,
                    Seq::empty(),
                    false,
                ),
    {
        let segs = self.segment_iter();
        let ghost ss = segs@;
        let mut result = String::new();
        let mut last_char: Option<char> = None;
        let mut prev_matched = false;
        let mut k: usize = 0;
        while k < segs.len()
            invariant
                k <= ss.len() == segs@.len(),
                segs@ == ss,
                forall|q: int| 0 <= q < ss.len() ==> seg_text(#[trigger] ss[q]).len() > 0,
                match last_char {
                    Some(c) => result@.len() > 0 && result@.last() == c,
                    None => result@.len() == 0,
                },
                segment_text_fold(ss, 0, Seq::empty(), false) == segment_text_fold(
                    ss,
                    k as int,
                    result@,
                    prev_matched,
                ),
            decreases ss.len() - k,
        {
            let ghost acc0 = result@;
            let ghost pm0 = prev_matched;
            let ends_space = match last_char {
                Some(c) => c == ' ' || c == '\t',
                None => false,
            };
            proof {
                assert(ends_space == ends_with_space_char(acc0));
            }
            let need_space: bool;
            let is_match: bool;
            match &segs[k] {
                Segment::Matched(_) => {
                    need_space = prev_matched || (last_char.is_some() && !ends_space);
                    is_match = true;
                },
                Segment::Unmatched(u) => {
                    let first = u.text.as_str().get_char(0);
                    let punct = first == ',' || first == '.' || first == '?' || first == '!'
                        || first == ';' || first == ':' || first == '\u{2014}' || first == '-'
                        || first == '\u{2026}';
                    need_space = prev_matched && !punct;
                    is_match = false;
                },
            }
            if need_space {
                proof {
                    reveal_strlit(" ");
                }
                result.append(" ");
                proof {
                    assert(result@ =~= acc0.push(' '));
                }
                last_char = Some(' ');
            }
            let ghost acc2 = result@;
            let t = segs[k].as_str();
            let ul = t.unicode_len();
            result.append(t);
            last_char = Some(t.get_char(ul - 1));
            prev_matched = is_match;
            proof {
                assert(result@ == acc2 + seg_text(ss[k as int]));
                assert(result@.last() == t@[ul - 1]);
                assert(segment_text_fold(ss, k as int, acc0, pm0) == segment_text_fold(
                    ss,
                    k + 1,
                    result@,
                    prev_matched,
                ));
            }
            k = k + 1;
        }
                result
    }
}

/// Concatenating one more segment appends its text.
proof fn lemma_concat_texts_snoc(ss: Seq<Segment>, i: int, j: int)
    requires
        0 <= i <= j < ss.len(),
    ensures
        concat_texts(ss, i, j + 1) == concat_texts(ss, i, j) + seg_text(ss[j]),
    decreases j - i,
{
    if i == j {
        assert(concat_texts(ss, i, j) =~= Seq::<char>::empty());
        assert(concat_texts(ss, j + 1, j + 1) =~= Seq::<char>::empty());
        assert(concat_texts(ss, i, j + 1) == seg_text(ss[i]) + concat_texts(ss, i + 1, j + 1));
        assert(seg_text(ss[i]) + Seq::<char>::empty() =~= seg_text(ss[i]));
        assert(Seq::<char>::empty() + seg_text(ss[j]) =~= seg_text(ss[j]));
    } else {
        lemma_concat_texts_snoc(ss, i + 1, j);
        assert(concat_texts(ss, i, j + 1) == seg_text(ss[i]) + concat_texts(ss, i + 1, j + 1));
        assert(seg_text(ss[i]) + (concat_texts(ss, i + 1, j) + seg_text(ss[j])) =~= (seg_text(
            ss[i],
        ) + concat_texts(ss, i + 1, j)) + seg_text(ss[j]));
    }
}

impl FuzzyMatches {
    /// Drops every leading match and every leading all-whitespace gap, trims
    /// the leading whitespace of the first kept gap, and returns the
    /// concatenated remainder.
    #[verifier::loop_isolation(false)]
    #[verifier::rlimit(60)]
    pub fn strip_prefix(self) -> (r: String)
        requires
            self.wf(),
        ensures
            exists|segs: Seq<Segment>|
                #[trigger] crate::segment::segments_ok(self, segs) && r@ == strip_prefix_fold(
                    segs,
                    0,
                    Seq::empty(),
                    true,
                ),
    {
        let segs = self.segment_iter();
        let ghost ss = segs@;
        let mut result = String::new();
        let mut skipping = true;
        let mut k: usize = 0;
        while k < segs.len()
            invariant
                k <= ss.len() == segs@.len(),
                segs@ == ss,
                strip_prefix_fold(ss, 0, Seq::empty(), true) == strip_prefix_fold(
                    ss,
                    k as int,
                    result@,
                    skipping,
                ),
            decreases ss.len() - k,
        {
            match &segs[k] {
                Segment::Matched(m) => {
                    if !skipping {
                        result.append(m.text.as_str());
                    }
                },
                Segment::Unmatched(u) => {
                    if skipping {
                        if !str_all_space(u.text.as_str()) {
                            let t = str_trim_start(u.text.as_str());
                            result.append(t.as_str());
                            skipping = false;
                        }
                    } else {
                        result.append(u.text.as_str());
                    }
                },
            }
            k = k + 1;
        }
        result
    }

    /// Drops every trailing match and every trailing all-whitespace gap,
    /// trims the trailing whitespace of the last kept gap, and returns the
    /// concatenated leading portion.
    #[verifier::loop_isolation(false)]
    #[verifier::rlimit(60)]
    pub fn strip_postfix(self) -> (r: String)
        requires
            self.wf(),
        ensures
            exists|segs: Seq<Segment>|
                #[trigger] crate::segment::segments_ok(self, segs) && r@ == strip_postfix_spec(
                    segs,
                ),
    {
        let segs = self.segment_iter();
        let ghost ss = segs@;
        let mut keep: usize = 0;
        let mut k: usize = 0;
        proof {
            assert(ss.take(0) =~= Seq::<Segment>::empty());
        }
        while k < segs.len()
            invariant
                k <= ss.len() == segs@.len(),
                segs@ == ss,
                keep <= k,
                keep == keep_of(ss.take(k as int)),
            decreases ss.len() - k,
        {
            proof {
                assert(ss.take(k + 1).drop_last() =~= ss.take(k as int));
                assert(ss.take(k + 1).last() == ss[k as int]);
            }
            match &segs[k] {
                Segment::Unmatched(u) => {
                    if !str_all_space(u.text.as_str()) {
                        keep = k + 1;
                    }
                },
                Segment::Matched(_) => {},
            }
            k = k + 1;
        }
        proof {
            assert(ss.take(ss.len() as int) =~= ss);
        }
        let mut result = String::new();
        if keep == 0 {
            return result;
        }
        let mut j: usize = 0;
        proof {
            assert(concat_texts(ss, 0, 0) =~= Seq::<char>::empty());
        }
        while j < keep - 1
            invariant
                j <= keep - 1,
                keep <= ss.len() == segs@.len(),
                segs@ == ss,
                1 <= keep,
                result@ == concat_texts(ss, 0, j as int),
            decreases keep - j,
        {
            proof {
                lemma_concat_texts_snoc(ss, 0, j as int);
            }
            result.append(segs[j].as_str());
            j = j + 1;
        }
        let t = str_trim_end(segs[keep - 1].as_str());
        result.append(t.as_str());
        result
    }

    /// The unmatched stretches of the haystack, in order: the haystack split
    /// at each match.
    #[verifier::loop_isolation(false)]
    #[verifier::rlimit(60)]
    pub fn split(self) -> (r: Vec<String>)
        requires
            self.wf(),
        ensures
            exists|segs: Seq<Segment>|
                #[trigger] crate::segment::segments_ok(self, segs) && Seq::new(
                    r@.len(),
                    |i: int| r@[i]@,
                ) == unmatched_texts(segs),
    {
        let segs = self.segment_iter();
        let ghost ss = segs@;
        let mut r: Vec<String> = Vec::new();
        let mut k: usize = 0;
        proof {
            assert(ss.skip(0) =~= ss);
            assert(Seq::new(r@.len(), |i: int| r@[i]@) =~= Seq::<Seq<char>>::empty());
            assert(Seq::<Seq<char>>::empty() + unmatched_texts(ss) =~= unmatched_texts(ss));
        }
        while k < segs.len()
            invariant
                k <= ss.len() == segs@.len(),
                segs@ == ss,
                unmatched_texts(ss) == Seq::new(r@.len(), |i: int| r@[i]@) + unmatched_texts(
                    ss.skip(k as int),
                ),
            decreases ss.len() - k,
        {
            let ghost views0 = Seq::new(r@.len(), |i: int| r@[i]@);
            proof {
                assert(ss.skip(k as int)[0] == ss[k as int]);
                assert(ss.skip(k as int).drop_first() =~= ss.skip(k + 1));
            }
            match &segs[k] {
                Segment::Unmatched(u) => {
                    let t = u.text.clone();
                    r.push(t);
                    proof {
                        assert(Seq::new(r@.len(), |i: int| r@[i]@) =~= views0.push(u.text@));
                        assert(views0 + (seq![u.text@] + unmatched_texts(ss.skip(k + 1)))
                            =~= views0.push(u.text@) + unmatched_texts(ss.skip(k + 1)));
                    }
                },
                Segment::Matched(_) => {},
            }
            k = k + 1;
        }
        proof {
            assert(ss.skip(ss.len() as int).len() == 0);
            assert(Seq::new(r@.len(), |i: int| r@[i]@) + unmatched_texts(ss.skip(ss.len() as int))
                =~= Seq::new(r@.len(), |i: int| r@[i]@));
        }
        r
    }
}

} // verus!
