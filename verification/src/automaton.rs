use vstd::prelude::*;
use crate::score::{MAX_GRAPHEMES, MAX_PENALTY, SCALE};
use crate::structs::{
    governing, limits_wf, opt_le, opt_lt, pattern_wf, within_limits_spec, FuzzyLimits,
    FuzzyPenalties, NumEdits, Pattern, PatternIndex,
};

verus! {

/// Largest beam width the engine accepts.
pub const MAX_BEAM: usize = 1000000000;

/// One node of the automaton: grapheme-labelled forward edges, the
/// Aho-Corasick failure link, the pattern indices completed at or inherited
/// through this node, the first pattern whose path reached it, a cached
/// prefix weight, and its depth in the trie. Exposed so that contracts can
/// speak about it; not meant to be built by hand.
#[derive(Debug)]
pub struct Node {
    /// First pattern whose trie path reached this node.
    pub pattern_index: Option<PatternIndex>,
    /// Outgoing edges: grapheme to child node index, in insertion order.
    pub transitions: Vec<(String, usize)>,
    /// Failure link; the root's is the root itself.
    pub fail: usize,
    /// Patterns that end at this node or at a node on its fail chain.
    pub output: Vec<PatternIndex>,
    /// Cached maximum prefix weight, in units of `1/SCALE_SQ`.
    pub weight: u64,
    /// Distance from the root in the trie.
    pub depth: usize,
}

impl Node {
    /// A fresh node with no edges at the given depth.
    pub(crate) fn new(depth: usize) -> (r: Node)
        ensures
            r.pattern_index is None,
            r.transitions@.len() == 0,
            r.fail == 0,
            r.output@.len() == 0,
            r.weight == 0,
            r.depth == depth,
    {
        Node {
            pattern_index: None,
            transitions: Vec::new(),
            fail: 0,
            output: Vec::new(),
            weight: 0,
            depth,
        }
    }
}

/// A node's internal bounds: edge targets and outputs point inside the
/// automaton, edge labels are nonempty.
pub open spec fn node_wf(node: Node, num_nodes: int, num_patterns: int) -> bool {
    &&& forall|t: int|
        0 <= t < node.transitions@.len() ==> (#[trigger] node.transitions@[t]).1 < num_nodes
    &&& forall|t: int|
        0 <= t < node.transitions@.len() ==> (#[trigger] node.transitions@[t]).0@.len() > 0
    &&& node.fail < num_nodes
    &&& forall|k: int| 0 <= k < node.output@.len() ==> (#[trigger] node.output@[k]) < num_patterns
    &&& match node.pattern_index {
        Some(i) => i < num_patterns,
        None => true,
    }
    &&& node.depth < num_nodes
}

/// A symmetric grapheme-pair similarity table keyed by the first scalar code
/// point of each grapheme; values are in hundredths of 1.0. Identity pairs
/// are implicit and always rate `SCALE`.
#[derive(Debug, Clone)]
pub struct SimilarityTable {
    /// The pairs with their similarity; the last entry for a pair wins.
    pub entries: Vec<((char, char), u32)>,
}

/// Every similarity value is at most 1.0.
pub open spec fn table_wf(t: SimilarityTable) -> bool {
    forall|k: int| 0 <= k < t.entries@.len() ==> (#[trigger] t.entries@[k]).1 <= SCALE
}

/// Last entry of `entries` for the ordered pair `(a, b)`, or zero: a later
/// insertion for the same pair overrides an earlier one.
pub open spec fn table_lookup(entries: Seq<((char, char), u32)>, a: char, b: char) -> u32
    decreases entries.len(),
{
    if entries.len() == 0 {
        0
    } else if entries.last().0 == (a, b) {
        entries.last().1
    } else {
        table_lookup(entries.drop_last(), a, b)
    }
}

/// The similarity the table assigns to a pair of characters: 1.0 on identity,
/// the tabled value otherwise, zero when untabled.
pub open spec fn sim_of(t: SimilarityTable, a: char, b: char) -> u32 {
    if a == b {
        SCALE as u32
    } else {
        table_lookup(t.entries@, a, b)
    }
}

impl SimilarityTable {
    /// A table with no pairs: only identical characters are similar.
    pub fn empty() -> (r: SimilarityTable)
        ensures
            r.entries@.len() == 0,
            table_wf(r),
    {
        SimilarityTable { entries: Vec::new() }
    }

    /// Record the similarity of the ordered pair `(a, b)`.
    pub fn insert(&mut self, a: char, b: char, value: u32)
        requires
            value <= SCALE,
            table_wf(*old(self)),
        ensures
            table_wf(*final(self)),
            final(self).entries@ == old(self).entries@.push(((a, b), value)),
    {
        self.entries.push(((a, b), value));
    }

    /// Look the ordered pair up; identical characters rate 1.0, untabled
    /// pairs zero.
    pub fn get(&self, a: char, b: char) -> (r: u32)
        requires
            table_wf(*self),
        ensures
            r == sim_of(*self, a, b),
            r <= SCALE,
    {
        if a == b {
            return SCALE;
        }
        let ghost es = self.entries@;
        proof {
            assert(es.take(es.len() as int) =~= es);
        }
        let mut k: usize = self.entries.len();
        while k > 0
            invariant
                0 <= k <= es.len(),
                es == self.entries@,
                a != b,
                table_wf(*self),
                table_lookup(es, a, b) == table_lookup(es.take(k as int), a, b),
            decreases k,
        {
            let (pair, v) = self.entries[k - 1];
            proof {
                assert(es.take(k as int).last() == es[k - 1]);
                assert(es.take(k as int).drop_last() =~= es.take(k - 1));
            }
            if pair.0 == a && pair.1 == b {
                proof {
                    assert(es.take(k as int).last() == ((a, b), v));
                    assert(table_lookup(es.take(k as int), a, b) == v);
                    assert(table_lookup(es, a, b) == v);
                }
                return v;
            }
            k = k - 1;
        }
        proof {
            assert(es.take(0).len() == 0);
        }
        0
    }
}

/// The fuzzy Aho-Corasick engine: the trie with failure links, the pattern
/// table, the similarity table, the edit-cost model, and the search options.
/// Built once by `FuzzyAhoCorasickBuilder`; immutable afterwards.
#[derive(Debug)]
pub struct FuzzyAhoCorasick {
    /// The automaton's nodes; node 0 is the root.
    pub nodes: Vec<Node>,
    /// The patterns the automaton was built from, in order.
    pub patterns: Vec<Pattern>,
    /// Grapheme-pair similarity used to discount substitutions.
    pub similarity: SimilarityTable,
    /// Global edit limits; a pattern's own limits override them.
    pub limits: Option<FuzzyLimits>,
    /// The four per-edit penalties.
    pub penalties: FuzzyPenalties,
    /// Whether patterns and haystack are lowercased before comparison.
    pub case_insensitive: bool,
    /// Optional bound on the surviving breadth-first candidates.
    pub beam_width: Option<usize>,
    /// The largest `grapheme_len` over all patterns.
    pub max_pattern_grapheme_len: usize,
}

impl FuzzyAhoCorasick {
    /// All internal bounds hold: indices point inside the automaton and the
    /// pattern table, and every numeric parameter is small enough for the
    /// search arithmetic never to overflow.
    pub open spec fn wf(self) -> bool {
        &&& 1 <= self.nodes@.len()
        &&& forall|n: int|
            0 <= n < self.nodes@.len() ==> node_wf(
                #[trigger] self.nodes@[n],
                self.nodes@.len() as int,
                self.patterns@.len() as int,
            )
        &&& forall|p: int| 0 <= p < self.patterns@.len() ==> pattern_wf(#[trigger] self.patterns@[p])
        &&& limits_wf(self.limits)
        &&& self.penalties.insertion <= MAX_PENALTY
        &&& self.penalties.deletion <= MAX_PENALTY
        &&& self.penalties.substitution <= MAX_PENALTY
        &&& self.penalties.swap <= MAX_PENALTY
        &&& table_wf(self.similarity)
        &&& 1 <= self.max_pattern_grapheme_len <= MAX_GRAPHEMES
        &&& match self.beam_width {
            Some(b) => 1 <= b <= MAX_BEAM,
            None => true,
        }
    }

    /// The patterns the automaton was built with.
    pub fn patterns(&self) -> (r: &Vec<Pattern>)
        ensures
            r@ == self.patterns@,
    {
        &self.patterns
    }

    /// The limits of the pattern whose trie path first reached `node`, if
    /// that pattern has its own.
    pub(crate) fn get_node_limits(&self, node: usize) -> (r: Option<FuzzyLimits>)
        requires
            self.wf(),
            node < self.nodes@.len(),
        ensures
            r == self.spec_node_limits(node as int),
            limits_wf(r),
    {
        match self.nodes[node].pattern_index {
            Some(i) => self.patterns[i].limits,
            None => None,
        }
    }

    /// The per-node limits: those of the first pattern through the node.
    pub open spec fn spec_node_limits(self, node: int) -> Option<FuzzyLimits> {
        match self.nodes@[node].pattern_index {
            Some(i) => self.patterns@[i as int].limits,
            None => None,
        }
    }

    /// Whether one more insertion can stay within the governing limits.
    pub(crate) fn within_limits_insertion_ahead(
        &self,
        limits: Option<FuzzyLimits>,
        edits: NumEdits,
        insertions: NumEdits,
    ) -> (r: bool)
        ensures
            r == match governing(limits, self.limits) {
                Some(m) => opt_lt(edits, m.edits) && opt_lt(insertions, m.insertions),
                None => false,
            },
    {
        let max = if limits.is_some() {
            limits
        } else {
            self.limits
        };
        match max {
            Some(m) => (match m.edits {
                Some(e) => edits < e,
                None => true,
            }) && (match m.insertions {
                Some(i) => insertions < i,
                None => true,
            }),
            None => false,
        }
    }

    /// Whether one more deletion can stay within the governing limits.
    pub(crate) fn within_limits_deletion_ahead(
        &self,
        limits: Option<FuzzyLimits>,
        edits: NumEdits,
        deletions: NumEdits,
    ) -> (r: bool)
        ensures
            r == match governing(limits, self.limits) {
                Some(m) => opt_lt(edits, m.edits) && opt_lt(deletions, m.deletions),
                None => false,
            },
    {
        let max = if limits.is_some() {
            limits
        } else {
            self.limits
        };
        match max {
            Some(m) => (match m.edits {
                Some(e) => edits < e,
                None => true,
            }) && (match m.deletions {
                Some(d) => deletions < d,
                None => true,
            }),
            None => false,
        }
    }

    /// Whether one more swap can stay within the governing limits.
    pub(crate) fn within_limits_swap_ahead(
        &self,
        limits: Option<FuzzyLimits>,
        edits: NumEdits,
        swaps: NumEdits,
    ) -> (r: bool)
        ensures
            r == match governing(limits, self.limits) {
                Some(m) => opt_lt(edits, m.edits) && opt_lt(swaps, m.swaps),
                None => false,
            },
    {
        let max = if limits.is_some() {
            limits
        } else {
            self.limits
        };
        match max {
            Some(m) => (match m.edits {
                Some(e) => edits < e,
                None => true,
            }) && (match m.swaps {
                Some(s) => swaps < s,
                None => true,
            }),
            None => false,
        }
    }

    /// Whether a substitution is still acceptable here; with no limits at
    /// all, only a first substitution passes this check, and the exact-match
    /// rule at emission rejects it then.
    pub(crate) fn within_limits_subst(
        &self,
        limits: Option<FuzzyLimits>,
        edits: NumEdits,
        substitutions: NumEdits,
    ) -> (r: bool)
        ensures
            r == match governing(limits, self.limits) {
                Some(m) => opt_le(edits, m.edits) && opt_le(substitutions, m.substitutions),
                None => edits == 0 && substitutions == 0,
            },
    {
        let max = if limits.is_some() {
            limits
        } else {
            self.limits
        };
        match max {
            Some(m) => (match m.edits {
                Some(e) => edits <= e,
                None => true,
            }) && (match m.substitutions {
                Some(s) => substitutions <= s,
                None => true,
            }),
            None => edits == 0 && substitutions == 0,
        }
    }

    /// Whether the full set of edit counts is acceptable under the governing
    /// limits.
    pub(crate) fn within_limits(
        &self,
        limits: Option<FuzzyLimits>,
        edits: NumEdits,
        insertions: NumEdits,
        deletions: NumEdits,
        substitutions: NumEdits,
        swaps: NumEdits,
    ) -> (r: bool)
        ensures
            r == within_limits_spec(
                governing(limits, self.limits),
                edits,
                insertions,
                deletions,
                substitutions,
                swaps,
            ),
    {
        let max = if limits.is_some() {
            limits
        } else {
            self.limits
        };
        match max {
            Some(m) => (match m.edits {
                Some(e) => edits <= e,
                None => true,
            }) && (match m.insertions {
                Some(i) => insertions <= i,
                None => true,
            }) && (match m.deletions {
                Some(d) => deletions <= d,
                None => true,
            }) && (match m.substitutions {
                Some(s) => substitutions <= s,
                None => true,
            }) && (match m.swaps {
                Some(s) => swaps <= s,
                None => true,
            }),
            None => edits == 0 && insertions == 0 && deletions == 0 && substitutions == 0 && swaps
                == 0,
        }
    }

    /// Similarity of two characters under this engine's table.
    pub(crate) fn get_similarity(&self, a: char, b: char) -> (r: u32)
        requires
            self.wf(),
        ensures
            r == sim_of(self.similarity, a, b),
            r <= SCALE,
    {
        self.similarity.get(a, b)
    }
}

/// First edge of `transitions` labelled `g`, if any.
pub open spec fn spec_trans_lookup(
    transitions: Seq<(String, usize)>,
    g: Seq<char>,
) -> Option<usize>
    decreases transitions.len(),
{
    if transitions.len() == 0 {
        None
    } else if transitions[0].0@ == g {
        Some(transitions[0].1)
    } else {
        spec_trans_lookup(transitions.drop_first(), g)
    }
}

/// Scans the edge list of a node for the edge labelled `g`.
pub(crate) fn trans_lookup(transitions: &Vec<(String, usize)>, g: &String) -> (r: Option<usize>)
    ensures
        r == spec_trans_lookup(transitions@, g@),
{
    let ghost ts = transitions@;
    proof {
        assert(ts.skip(0) =~= ts);
    }
    let mut k: usize = 0;
    while k < transitions.len()
        invariant
            0 <= k <= ts.len(),
            ts == transitions@,
            spec_trans_lookup(ts, g@) == spec_trans_lookup(ts.skip(k as int), g@),
        decreases ts.len() - k,
    {
        proof {
            assert(ts.skip(k as int)[0] == ts[k as int]);
            assert(ts.skip(k as int).drop_first() =~= ts.skip(k + 1));
        }
        if transitions[k].0 == *g {
            return Some(transitions[k].1);
        }
        k = k + 1;
    }
    proof {
        assert(ts.skip(k as int).len() == 0);
    }
    None
}

} // verus!
