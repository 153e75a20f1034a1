use vstd::prelude::*;
use crate::score::{MAX_EDIT_LIMIT, MAX_GRAPHEMES, MAX_PATTERN_BYTES, SCALE};
use crate::text::{byte_len, graphemes_of, grapheme_split};
use vstd::string::StringSliceAdditionalSpecFns;

verus! {

/// Index of a pattern in the table the automaton was built from.
pub type PatternIndex = usize;

/// Count of edits of one kind.
pub type NumEdits = usize;

/// Optional bounds on the number of edits a match may use: a bound on the
/// total and one per kind. A bound that is `None` is not enforced.
#[derive(Debug, Clone, Copy, PartialEq, Eq, Structural)]
pub struct FuzzyLimits {
    /// Bound on insertions, if stated.
    pub insertions: Option<NumEdits>,
    /// Bound on deletions, if stated.
    pub deletions: Option<NumEdits>,
    /// Bound on substitutions, if stated.
    pub substitutions: Option<NumEdits>,
    /// Bound on swaps, if stated.
    pub swaps: Option<NumEdits>,
    /// Bound on the total number of edits, if stated.
    pub edits: Option<NumEdits>,
}

/// `x` respects the optional bound `b`.
pub open spec fn opt_le(x: NumEdits, b: Option<NumEdits>) -> bool {
    match b {
        Some(m) => x <= m,
        None => true,
    }
}

/// `x` is strictly below the optional bound `b` (room for one more edit).
pub open spec fn opt_lt(x: NumEdits, b: Option<NumEdits>) -> bool {
    match b {
        Some(m) => x < m,
        None => true,
    }
}

/// All stated bounds of `lim` hold of the given edit counts; with no limits
/// at all, only an exact match (all counts zero) is acceptable.
pub open spec fn within_limits_spec(
    lim: Option<FuzzyLimits>,
    edits: NumEdits,
    insertions: NumEdits,
    deletions: NumEdits,
    substitutions: NumEdits,
    swaps: NumEdits,
) -> bool {
    match lim {
        Some(m) => opt_le(edits, m.edits) && opt_le(insertions, m.insertions) && opt_le(
            deletions,
            m.deletions,
        ) && opt_le(substitutions, m.substitutions) && opt_le(swaps, m.swaps),
        None => edits == 0 && insertions == 0 && deletions == 0 && substitutions == 0 && swaps
            == 0,
    }
}

/// The limits that govern a candidate: the pattern's own if it has any,
/// otherwise the automaton's global limits.
pub open spec fn governing(
    pattern_limits: Option<FuzzyLimits>,
    global: Option<FuzzyLimits>,
) -> Option<FuzzyLimits> {
    if pattern_limits is Some {
        pattern_limits
    } else {
        global
    }
}

/// Every stated bound is small enough for edit counters never to overflow.
pub open spec fn limits_wf(lim: Option<FuzzyLimits>) -> bool {
    match lim {
        Some(m) => opt_le(0, m.edits) && (m.edits is Some ==> m.edits->0 <= MAX_EDIT_LIMIT) && (
        m.insertions is Some ==> m.insertions->0 <= MAX_EDIT_LIMIT) && (m.deletions is Some
            ==> m.deletions->0 <= MAX_EDIT_LIMIT) && (m.substitutions is Some
            ==> m.substitutions->0 <= MAX_EDIT_LIMIT) && (m.swaps is Some ==> m.swaps->0
            <= MAX_EDIT_LIMIT),
        None => true,
    }
}

impl FuzzyLimits {
    /// Limits with no bound stated yet.
    pub fn new() -> (r: Self)
        ensures
            r.insertions is None,
            r.deletions is None,
            r.substitutions is None,
            r.swaps is None,
            r.edits is None,
    {
        FuzzyLimits {
            insertions: None,
            deletions: None,
            substitutions: None,
            swaps: None,
            edits: None,
        }
    }

    /// Bound the number of insertions.
    pub fn insertions(self, num: NumEdits) -> (r: Self)
        ensures
            r == (FuzzyLimits { insertions: Some(num), ..self }),
    {
        FuzzyLimits { insertions: Some(num), ..self }
    }

    /// Bound the number of deletions.
    pub fn deletions(self, num: NumEdits) -> (r: Self)
        ensures
            r == (FuzzyLimits { deletions: Some(num), ..self }),
    {
        FuzzyLimits { deletions: Some(num), ..self }
    }

    /// Bound the number of substitutions.
    pub fn substitutions(self, num: NumEdits) -> (r: Self)
        ensures
            r == (FuzzyLimits { substitutions: Some(num), ..self }),
    {
        FuzzyLimits { substitutions: Some(num), ..self }
    }

    /// Bound the number of swaps (transpositions).
    pub fn swaps(self, num: NumEdits) -> (r: Self)
        ensures
            r == (FuzzyLimits { swaps: Some(num), ..self }),
    {
        FuzzyLimits { swaps: Some(num), ..self }
    }

    /// Bound the total number of edits.
    pub fn edits(self, num: NumEdits) -> (r: Self)
        ensures
            r == (FuzzyLimits { edits: Some(num), ..self }),
    {
        FuzzyLimits { edits: Some(num), ..self }
    }

    /// The value of `self` after finalization: when no total bound was
    /// stated, every unstated individual bound becomes zero, so that limits
    /// built from a single kind forbid all other kinds.
    pub open spec fn spec_finalize(self) -> Self {
        if self.edits is None {
            FuzzyLimits {
                insertions: if self.insertions is None {
                    Some(0)
                } else {
                    self.insertions
                },
                deletions: if self.deletions is None {
                    Some(0)
                } else {
                    self.deletions
                },
                substitutions: if self.substitutions is None {
                    Some(0)
                } else {
                    self.substitutions
                },
                swaps: if self.swaps is None {
                    Some(0)
                } else {
                    self.swaps
                },
                edits: None,
            }
        } else {
            self
        }
    }

    /// Defaults every unstated individual bound to zero when no total bound
    /// was stated.
    pub(crate) fn finalize(self) -> (r: Self)
        ensures
            r == self.spec_finalize(),
    {
        if self.edits.is_none() {
            FuzzyLimits {
                insertions: if self.insertions.is_none() {
                    Some(0)
                } else {
                    self.insertions
                },
                deletions: if self.deletions.is_none() {
                    Some(0)
                } else {
                    self.deletions
                },
                substitutions: if self.substitutions.is_none() {
                    Some(0)
                } else {
                    self.substitutions
                },
                swaps: if self.swaps.is_none() {
                    Some(0)
                } else {
                    self.swaps
                },
                edits: None,
            }
        } else {
            self
        }
    }
}

/// The four per-edit penalty weights, in hundredths: the default substitution
/// penalty of 1.0 is stored as 100.
#[derive(Debug, Clone, Copy, PartialEq, Eq, Structural)]
pub struct FuzzyPenalties {
    pub insertion: u32,
    pub deletion: u32,
    pub substitution: u32,
    pub swap: u32,
}

impl FuzzyPenalties {
    /// The default penalties: substitution 1.0, deletion 0.7, insertion 0.4,
    /// swap 0.4.
    pub fn new() -> (r: Self)
        ensures
            r.substitution == 100,
            r.deletion == 70,
            r.insertion == 40,
            r.swap == 40,
    {
        FuzzyPenalties { insertion: 40, deletion: 70, substitution: 100, swap: 40 }
    }

    /// Replace the insertion penalty.
    pub fn insertion(self, penalty: u32) -> (r: Self)
        ensures
            r == (FuzzyPenalties { insertion: penalty, ..self }),
    {
        FuzzyPenalties { insertion: penalty, ..self }
    }

    /// Replace the deletion penalty.
    pub fn deletion(self, penalty: u32) -> (r: Self)
        ensures
            r == (FuzzyPenalties { deletion: penalty, ..self }),
    {
        FuzzyPenalties { deletion: penalty, ..self }
    }

    /// Replace the substitution penalty.
    pub fn substitution(self, penalty: u32) -> (r: Self)
        ensures
            r == (FuzzyPenalties { substitution: penalty, ..self }),
    {
        FuzzyPenalties { substitution: penalty, ..self }
    }

    /// Replace the swap penalty.
    pub fn swap(self, penalty: u32) -> (r: Self)
        ensures
            r == (FuzzyPenalties { swap: penalty, ..self }),
    {
        FuzzyPenalties { swap: penalty, ..self }
    }
}

impl Default for FuzzyPenalties {
    /// The default penalties: substitution 1.0, deletion 0.7, insertion 0.4,
    /// swap 0.4.
    fn default() -> (r: Self)
        ensures
            r.substitution == 100,
            r.deletion == 70,
            r.insertion == 40,
            r.swap == 40,
    {
        FuzzyPenalties::new()
    }
}

/// Identity of a match for uniqueness selection: the pattern's custom id if
/// it has one, otherwise its index in the pattern table.
#[derive(Debug, Clone, Copy, PartialEq, Eq, Structural)]
pub enum UniqueId {
    Automatic(usize),
    Custom(usize),
}

/// One pattern of the dictionary: its original text, its length in grapheme
/// clusters, a weight in hundredths scaling reported similarities, optional
/// per-pattern edit limits, and an optional custom identity.
#[derive(Debug, Clone)]
pub struct Pattern {
    /// Number of extended grapheme clusters in `pattern`.
    pub grapheme_len: usize,
    /// The pattern text as given.
    pub pattern: String,
    /// Custom identity for uniqueness selection.
    pub custom_unique_id: Option<usize>,
    /// Weight in hundredths, in `(0, 100]`; scales reported similarity.
    pub weight: u32,
    /// Per-pattern edit limits; override the automaton's global limits.
    pub limits: Option<FuzzyLimits>,
}

/// Two patterns carry the same values.
pub open spec fn pattern_eq(a: Pattern, b: Pattern) -> bool {
    &&& a.grapheme_len == b.grapheme_len
    &&& a.pattern@ == b.pattern@
    &&& a.custom_unique_id == b.custom_unique_id
    &&& a.weight == b.weight
    &&& a.limits == b.limits
}

/// Bounds under which the search arithmetic can never overflow.
pub open spec fn pattern_wf(p: Pattern) -> bool {
    &&& 1 <= p.grapheme_len <= MAX_GRAPHEMES
    &&& 1 <= p.weight <= SCALE
    &&& byte_len(p.pattern@) <= MAX_PATTERN_BYTES
    &&& limits_wf(p.limits)
}

impl Pattern {
    /// A pattern over the given text, with weight 1.0 and no limits of its
    /// own. The grapheme count is taken from the text; it is positive for a
    /// nonempty text and never above the text's byte length, so a verified
    /// caller can discharge the builder's size bounds from the byte length
    /// alone.
    pub fn new(s: &str) -> (r: Pattern)
        ensures
            r.pattern@ == s@,
            r.grapheme_len == graphemes_of(s@).len(),
            r.grapheme_len <= byte_len(s@),
            s@.len() > 0 ==> r.grapheme_len > 0,
            r.custom_unique_id is None,
            r.weight == SCALE,
            r.limits is None,
    {
        let g = grapheme_split(s);
        proof {
            crate::text::lemma_grapheme_count(s@, g@);
        }
        Pattern {
            grapheme_len: g.len(),
            pattern: s.to_owned(),
            custom_unique_id: None,
            weight: SCALE,
            limits: None,
        }
    }

    /// The pattern text.
    pub fn as_str(&self) -> (r: &str)
        ensures
            r@ == self.pattern@,
    {
        self.pattern.as_str()
    }

    /// The pattern text's length in bytes.
    pub fn len(&self) -> (r: usize)
        requires
            byte_len(self.pattern@) <= usize::MAX,
        ensures
            r == byte_len(self.pattern@),
    {
        let s = self.pattern.as_str();
        let n = s.len();
        assert(s.spec_bytes() == vstd::utf8::encode_utf8(self.pattern@));
        n
    }

    /// Whether the pattern text is empty.
    pub fn is_empty(&self) -> (r: bool)
        ensures
            r == (self.pattern@.len() == 0),
    {
        self.pattern.as_str().is_empty()
    }

    /// Replace the weight (hundredths; 100 is 1.0).
    pub fn weight(self, weight: u32) -> (r: Self)
        ensures
            r == (Pattern { weight, ..self }),
    {
        Pattern { weight, ..self }
    }

    /// Give this pattern limits of its own, finalized.
    pub fn fuzzy(self, limits: FuzzyLimits) -> (r: Self)
        ensures
            r == (Pattern { limits: Some(limits.spec_finalize()), ..self }),
    {
        Pattern { limits: Some(limits.finalize()), ..self }
    }

    /// Give this pattern a custom identity for uniqueness selection.
    pub fn custom_unique_id(self, id: usize) -> (r: Self)
        ensures
            r == (Pattern { custom_unique_id: Some(id), ..self }),
    {
        Pattern { custom_unique_id: Some(id), ..self }
    }
}

impl From<&str> for Pattern {
    fn from(s: &str) -> Pattern {
        Pattern::new(s)
    }
}

impl vstd::std_specs::convert::FromSpecImpl<&str> for Pattern {
    open spec fn obeys_from_spec() -> bool {
        false
    }

    open spec fn from_spec(s: &str) -> Pattern {
        arbitrary()
    }
}

impl From<String> for Pattern {
    fn from(s: String) -> Pattern {
        Pattern::new(s.as_str())
    }
}

impl vstd::std_specs::convert::FromSpecImpl<String> for Pattern {
    open spec fn obeys_from_spec() -> bool {
        false
    }

    open spec fn from_spec(s: String) -> Pattern {
        arbitrary()
    }
}

impl From<(&str, u32)> for Pattern {
    fn from(pair: (&str, u32)) -> Pattern {
        Pattern::new(pair.0).weight(pair.1)
    }
}

impl vstd::std_specs::convert::FromSpecImpl<(&str, u32)> for Pattern {
    open spec fn obeys_from_spec() -> bool {
        false
    }

    open spec fn from_spec(pair: (&str, u32)) -> Pattern {
        arbitrary()
    }
}

impl From<(&str, u32, usize)> for Pattern {
    fn from(triple: (&str, u32, usize)) -> Pattern {
        Pattern::new(triple.0).weight(triple.1).fuzzy(FuzzyLimits::new().edits(triple.2))
    }
}

impl vstd::std_specs::convert::FromSpecImpl<(&str, u32, usize)> for Pattern {
    open spec fn obeys_from_spec() -> bool {
        false
    }

    open spec fn from_spec(triple: (&str, u32, usize)) -> Pattern {
        arbitrary()
    }
}

impl From<&String> for Pattern {
    fn from(s: &String) -> Pattern {
        Pattern::new(s.as_str())
    }
}

impl vstd::std_specs::convert::FromSpecImpl<&String> for Pattern {
    open spec fn obeys_from_spec() -> bool {
        false
    }

    open spec fn from_spec(s: &String) -> Pattern {
        arbitrary()
    }
}

impl From<(String, u32)> for Pattern {
    fn from(pair: (String, u32)) -> Pattern {
        Pattern::new(pair.0.as_str()).weight(pair.1)
    }
}

impl vstd::std_specs::convert::FromSpecImpl<(String, u32)> for Pattern {
    open spec fn obeys_from_spec() -> bool {
        false
    }

    open spec fn from_spec(pair: (String, u32)) -> Pattern {
        arbitrary()
    }
}

impl From<(String, u32, usize)> for Pattern {
    fn from(triple: (String, u32, usize)) -> Pattern {
        Pattern::new(triple.0.as_str()).weight(triple.1).fuzzy(
            FuzzyLimits::new().edits(triple.2),
        )
    }
}

impl vstd::std_specs::convert::FromSpecImpl<(String, u32, usize)> for Pattern {
    open spec fn obeys_from_spec() -> bool {
        false
    }

    open spec fn from_spec(triple: (String, u32, usize)) -> Pattern {
        arbitrary()
    }
}

} // verus!
