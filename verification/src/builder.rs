use vstd::prelude::*;
use crate::automaton::{
    node_wf, table_wf, trans_lookup, FuzzyAhoCorasick, Node, SimilarityTable, MAX_BEAM,
};
use crate::score::{MAX_GRAPHEMES, MAX_PATTERN_BYTES, MAX_PENALTY, SCALE, SCALE_SQ};
use crate::structs::{limits_wf, pattern_wf, FuzzyLimits, FuzzyPenalties, Pattern, PatternIndex};
use crate::text::{
    byte_len, grapheme_split, grapheme_split_post, graphemes_of, lowercase,
};

verus! {

/// The default grapheme-pair similarity table: vowels resemble vowels more
/// than consonants resemble consonants, and `o` resembles the digit `0`.
pub fn default_similarity_map() -> (r: SimilarityTable)
    ensures
        table_wf(r),
{
    let vowels: Vec<char> = vec!['a', 'e', 'i', 'o', 'u'];
    let consonants: Vec<char> = vec![
        'b', 'c', 'd', 'f', 'g', 'h', 'j', 'k', 'l', 'm', 'n', 'p', 'q', 'r', 's', 't', 'v', 'w',
        'x', 'y', 'z',
    ];
    let mut map = SimilarityTable::empty();
    let mut i: usize = 0;
    while i < vowels.len()
        invariant
            table_wf(map),
            vowels@.len() == 5,
        decreases vowels@.len() - i,
    {
        let mut j: usize = 0;
        while j < vowels.len()
            invariant
                table_wf(map),
                vowels@.len() == 5,
                i < 5,
            decreases vowels@.len() - j,
        {
            if vowels[i] != vowels[j] {
                map.insert(vowels[i], vowels[j], 60);
            }
            j = j + 1;
        }
        i = i + 1;
    }
    let mut i: usize = 0;
    while i < consonants.len()
        invariant
            table_wf(map),
            consonants@.len() == 21,
        decreases consonants@.len() - i,
    {
        let mut j: usize = 0;
        while j < consonants.len()
            invariant
                table_wf(map),
                consonants@.len() == 21,
                i < 21,
            decreases consonants@.len() - j,
        {
            if consonants[i] != consonants[j] {
                map.insert(consonants[i], consonants[j], 40);
            }
            j = j + 1;
        }
        i = i + 1;
    }
    map.insert('o', '0', 60);
    map.insert('0', 'o', 60);
    map
}

/// Copies a list of pattern indices.
fn copy_usizes(v: &Vec<usize>) -> (r: Vec<usize>)
    ensures
        r@ == v@,
{
    let mut r: Vec<usize> = Vec::new();
    let mut i: usize = 0;
    while i < v.len()
        invariant
            0 <= i <= v@.len(),
            r@ == v@.subrange(0, i as int),
        decreases v@.len() - i,
    {
        r.push(v[i]);
        i = i + 1;
    }
    proof {
        assert(v@.subrange(0, v@.len() as int) =~= v@);
    }
    r
}

/// Whether the list contains the index.
fn contains_usize(v: &Vec<usize>, x: usize) -> (r: bool)
    ensures
        r == v@.contains(x),
{
    let mut i: usize = 0;
    while i < v.len()
        invariant
            0 <= i <= v@.len(),
            forall|k: int| 0 <= k < i ==> v@[k] != x,
        decreases v@.len() - i,
    {
        if v[i] == x {
            return true;
        }
        i = i + 1;
    }
    false
}

/// Builder for [`FuzzyAhoCorasick`]: collects the matching options, then
/// `build` constructs the automaton from a pattern list.
#[derive(Debug)]
pub struct FuzzyAhoCorasickBuilder {
    /// Custom similarity table; the default vowel/consonant table otherwise.
    pub similarity: Option<SimilarityTable>,
    /// Global edit limits, already finalized.
    pub limits: Option<FuzzyLimits>,
    /// The four per-edit penalties.
    pub penalties: FuzzyPenalties,
    /// Whether matching is Unicode case-insensitive.
    pub case_insensitive: bool,
    /// Optional bound on surviving breadth-first candidates.
    pub beam_width: Option<usize>,
}

impl FuzzyAhoCorasickBuilder {
    /// A builder with the default penalties, no limits, case-sensitive
    /// matching, the default similarity table, and no beam.
    pub fn new() -> (r: Self)
        ensures
            r.similarity is None,
            r.limits is None,
            r.penalties.substitution == 100,
            r.penalties.deletion == 70,
            r.penalties.insertion == 40,
            r.penalties.swap == 40,
            !r.case_insensitive,
            r.beam_width is None,
    {
        FuzzyAhoCorasickBuilder {
            similarity: None,
            limits: None,
            penalties: FuzzyPenalties::new(),
            case_insensitive: false,
            beam_width: None,
        }
    }

    /// Provide a custom similarity table.
    pub fn similarity(self, map: SimilarityTable) -> (r: Self)
        ensures
            r == (FuzzyAhoCorasickBuilder { similarity: Some(map), ..self }),
    {
        FuzzyAhoCorasickBuilder { similarity: Some(map), ..self }
    }

    /// Set the global edit limits; they are finalized here.
    pub fn fuzzy(self, limits: FuzzyLimits) -> (r: Self)
        ensures
            r == (FuzzyAhoCorasickBuilder { limits: Some(limits.spec_finalize()), ..self }),
    {
        FuzzyAhoCorasickBuilder { limits: Some(limits.finalize()), ..self }
    }

    /// Set custom penalty weights.
    pub fn penalties(self, penalties: FuzzyPenalties) -> (r: Self)
        ensures
            r == (FuzzyAhoCorasickBuilder { penalties, ..self }),
    {
        FuzzyAhoCorasickBuilder { penalties, ..self }
    }

    /// Enable Unicode-aware case-insensitive matching.
    pub fn case_insensitive(self, value: bool) -> (r: Self)
        ensures
            r == (FuzzyAhoCorasickBuilder { case_insensitive: value, ..self }),
    {
        FuzzyAhoCorasickBuilder { case_insensitive: value, ..self }
    }

    /// Bound the number of breadth-first candidates kept alive per seed.
    pub fn beam_width(self, width: usize) -> (r: Self)
        ensures
            r == (FuzzyAhoCorasickBuilder { beam_width: Some(width), ..self }),
    {
        FuzzyAhoCorasickBuilder { beam_width: Some(width), ..self }
    }

    /// Builds the immutable [`FuzzyAhoCorasick`] engine from the pattern
    /// list: the trie over the patterns' graphemes, then the failure links in
    /// breadth order, then the weight propagation along fail chains. Each
    /// pattern's stored grapheme count is corrected to the count of its real
    /// grapheme clusters, so a hand-built value cannot skew the similarity
    /// formula; a count outside the supported range keeps the given value.
    pub fn build(self, patterns: Vec<Pattern>) -> (r: FuzzyAhoCorasick)
        requires
            1 <= patterns@.len(),
            forall|p: int| 0 <= p < patterns@.len() ==> pattern_wf(#[trigger] patterns@[p]),
            limits_wf(self.limits),
            self.penalties.insertion <= MAX_PENALTY,
            self.penalties.deletion <= MAX_PENALTY,
            self.penalties.substitution <= MAX_PENALTY,
            self.penalties.swap <= MAX_PENALTY,
            match self.similarity {
                Some(t) => table_wf(t),
                None => true,
            },
            match self.beam_width {
                Some(b) => 1 <= b <= MAX_BEAM,
                None => true,
            },
        ensures
            r.wf(),
            r.patterns@.len() == patterns@.len(),
            forall|p: int|
                0 <= p < patterns@.len() ==> pattern_built(#[trigger] patterns@[p], r.patterns@[p]),
            r.limits == self.limits,
            r.penalties == self.penalties,
            r.case_insensitive == self.case_insensitive,
            r.beam_width == self.beam_width,
            trie_reach(r.nodes@, r.case_insensitive, r.patterns@),
            r.nodes@[0].fail == 0,
    {
        let similarity = match self.similarity {
            Some(t) => t,
            None => default_similarity_map(),
        };

        let ghost orig_patterns = patterns@;
        let mut patterns = patterns;
        let ghost np = patterns@.len() as int;
        let mut nodes: Vec<Node> = Vec::new();
        nodes.push(Node::new(0));

        let mut max_len: usize = 1;

        // Phase A: the trie.
        let mut i: usize = 0;
        while i < patterns.len()
            invariant
                0 <= i <= patterns@.len(),
                1 <= patterns@.len() == np == orig_patterns.len(),
                forall|p: int| 0 <= p < np ==> pattern_wf(#[trigger] patterns@[p]),
                forall|p: int|
                    0 <= p < i ==> pattern_built(#[trigger] orig_patterns[p], patterns@[p]),
                forall|p: int| i <= p < np ==> #[trigger] patterns@[p] == orig_patterns[p],
                1 <= nodes@.len(),
                forall|n: int|
                    0 <= n < nodes@.len() ==> node_wf(
                        #[trigger] nodes@[n],
                        nodes@.len() as int,
                        np,
                    ),
                forall|n: int| 0 <= n < nodes@.len() ==> (#[trigger] nodes@[n]).depth <= n,
                trie_edge_depths(nodes@),
                depth_sane(nodes@),
                forall|n: int| 0 <= n < nodes@.len() ==> (#[trigger] nodes@[n]).fail == 0,
                reach_upto(nodes@, self.case_insensitive, patterns@, i as int),
                1 <= max_len <= MAX_GRAPHEMES,
            decreases patterns@.len() - i,
        {
            let word = grapheme_split(patterns[i].pattern.as_str());
            proof {
                lemma_grapheme_count_bound(patterns@[i as int].pattern@, word@);
            }
            let wl = word.len();

            if 1 <= wl && wl <= MAX_GRAPHEMES {
                patterns[i].grapheme_len = wl;
            }
            let ghost plabels = crate::search::pattern_labels(
                self.case_insensitive,
                patterns@[i as int].pattern@,
            );
            proof {
                assert(pattern_built(orig_patterns[i as int], patterns@[i as int]));
                assert(pattern_wf(patterns@[i as int]));
                assert(grapheme_split_post(patterns@[i as int].pattern@, word@));
                assert(plabels.len() == word@.len());
                assert(plabels.take(0).len() == 0);
                assert(walk_trie(nodes@, 0, plabels.take(0), 0) == Some(0int));
                assert(reach_upto(nodes@, self.case_insensitive, patterns@, i as int));
            }

            if patterns[i].grapheme_len > max_len && patterns[i].grapheme_len <= MAX_GRAPHEMES {
                max_len = patterns[i].grapheme_len;
            }

            let mut current: usize = 0;
            let mut j: usize = 0;
            while j < wl
                invariant
                    0 <= j <= wl == word@.len() <= MAX_PATTERN_BYTES,
                    i < patterns@.len() == np,
                    forall|p: int| 0 <= p < np ==> pattern_wf(#[trigger] patterns@[p]),
                    grapheme_split_post(patterns@[i as int].pattern@, word@),
                    1 <= nodes@.len(),
                    current < nodes@.len(),
                    forall|n: int|
                        0 <= n < nodes@.len() ==> node_wf(
                            #[trigger] nodes@[n],
                            nodes@.len() as int,
                            np,
                        ),
                    forall|n: int| 0 <= n < nodes@.len() ==> (#[trigger] nodes@[n]).depth <= n,
                    trie_edge_depths(nodes@),
                    depth_sane(nodes@),
                    forall|n: int| 0 <= n < nodes@.len() ==> (#[trigger] nodes@[n]).fail == 0,
                    plabels == crate::search::pattern_labels(
                        self.case_insensitive,
                        patterns@[i as int].pattern@,
                    ),
                    plabels.len() == wl,
                    walk_trie(nodes@, 0, plabels.take(j as int), 0) == Some(current as int),
                    reach_upto(nodes@, self.case_insensitive, patterns@, i as int),
                decreases wl - j,
            {
                let raw = &word[j].1;
                let g: String = if self.case_insensitive {
                    lowercase(raw.as_str())
                } else {
                    raw.clone()
                };
                assert(g@.len() > 0);
                let ghost gv = g@;
                proof {
                    assert(word@[j as int].1@ == graphemes_of(
                        patterns@[i as int].pattern@,
                    )[j as int]);
                    assert(gv == plabels[j as int]);
                }

                let next: usize = match trans_lookup(&nodes[current].transitions, &g) {
                    Some(n) => {
                        proof {
                            lemma_trans_lookup_in_range(
                                nodes@[current as int],
                                nodes@.len() as int,
                                np,
                                g@,
                            );
                            lemma_walk_step(
                                nodes@,
                                0,
                                plabels,
                                0,
                                j as int,
                                current as int,
                                n,
                            );
                        }
                        n
                    },
                    None => {
                        let ghost ns0 = nodes@;
                        let new_index = nodes.len();
                        let depth = nodes[current].depth;
                        nodes[current].transitions.push((g, new_index));
                        nodes.push(Node::new(depth + 1));
                        proof {
                            assert forall|n: int|
                                0 <= n < nodes@.len() implies node_wf(
                                #[trigger] nodes@[n],
                                nodes@.len() as int,
                                np,
                            ) by {
                                assert(node_wf(
                                    nodes@[n],
                                    nodes@.len() as int - 1,
                                    np,
                                ) || n == current || n == nodes@.len() - 1);
                            }
                            lemma_extends_after(ns0, nodes@);
                            lemma_carry(
                                ns0,
                                nodes@,
                                self.case_insensitive,
                                patterns@,
                                i as int,
                                plabels,
                                j as int,
                                current as int,
                            );
                            let e = nodes@[current as int].transitions@.last();
                            assert(e.0@ == gv && e.1 == new_index);
                            assert(nodes@[current as int].transitions@ == ns0[current as int].transitions@.push(e));
                            lemma_lookup_push_new(ns0[current as int].transitions@, e, gv);
                            lemma_walk_step(
                                nodes@,
                                0,
                                plabels,
                                0,
                                j as int,
                                current as int,
                                new_index,
                            );
                        }
                        new_index
                    },
                };

                let ghost ns_mid = nodes@;
                if nodes[next].pattern_index.is_none() {
                    nodes[next].pattern_index = Some(i);
                }
                proof {
                    lemma_extends_after(ns_mid, nodes@);
                    lemma_carry(
                        ns_mid,
                        nodes@,
                        self.case_insensitive,
                        patterns@,
                        i as int,
                        plabels,
                        j + 1,
                        next as int,
                    );
                }

                current = next;

                // Prefix-membership weight: deeper prefixes carry more of
                // the pattern's weight; the maximum across patterns wins.
                let w = patterns[i].weight as u64;
                proof {
                    lemma_pmf_bounds(w as int, wl as int, j as int);
                }
                let pmf: u64 = w * ((wl - j) as u64) * SCALE_SQ / (wl as u64);
                let ghost ns_w = nodes@;
                if nodes[current].weight < pmf {
                    nodes[current].weight = pmf;
                }
                proof {
                    lemma_extends_after(ns_w, nodes@);
                    lemma_carry(
                        ns_w,
                        nodes@,
                        self.case_insensitive,
                        patterns@,
                        i as int,
                        plabels,
                        j + 1,
                        current as int,
                    );
                }

                j = j + 1;
            }

            // Terminal node: record the pattern and raise the weight to the
            // pattern's own.
            if wl > 0 {
                let ghost ns_t = nodes@;
                nodes[current].output.push(i);
                proof {
                    lemma_extends_after(ns_t, nodes@);
                    lemma_carry(
                        ns_t,
                        nodes@,
                        self.case_insensitive,
                        patterns@,
                        i as int,
                        plabels,
                        wl as int,
                        current as int,
                    );
                    assert(plabels.take(wl as int) =~= plabels);
                    assert(nodes@[current as int].output@.last() == i);
                    assert(nodes@[current as int].output@.contains(i));
                    assert(pattern_reaches(
                        nodes@,
                        self.case_insensitive,
                        patterns@[i as int],
                        i,
                    ));
                }
                let w_full = (patterns[i].weight as u64) * SCALE_SQ;
                let ghost ns_f = nodes@;
                if nodes[current].weight < w_full {
                    nodes[current].weight = w_full;
                }
                proof {
                    lemma_extends_after(ns_f, nodes@);
                    lemma_reach_upto_extends(
                        ns_f,
                        nodes@,
                        self.case_insensitive,
                        patterns@,
                        i + 1,
                    );
                }
            }
            proof {
                assert(reach_upto(nodes@, self.case_insensitive, patterns@, i + 1));
            }

            i = i + 1;
        }

        // Phase B: failure links, in breadth (depth) order.
        let nn = nodes.len();
        let mut d: usize = 0;
        while d < nn
            invariant
                nn == nodes@.len(),
                1 <= nodes@.len(),
                forall|n: int|
                    0 <= n < nodes@.len() ==> node_wf(#[trigger] nodes@[n], nodes@.len() as int, np),
                trie_edge_depths(nodes@),
                depth_sane(nodes@),
                fail_depths(nodes@),
                trie_reach(nodes@, self.case_insensitive, patterns@),
                nodes@[0].fail == 0,
            decreases nn - d,
        {
            let mut x: usize = 0;
            while x < nn
                invariant
                    nn == nodes@.len(),
                    1 <= nodes@.len(),
                    forall|n: int|
                        0 <= n < nodes@.len() ==> node_wf(
                            #[trigger] nodes@[n],
                            nodes@.len() as int,
                            np,
                        ),
                    trie_edge_depths(nodes@),
                    depth_sane(nodes@),
                    fail_depths(nodes@),
                    trie_reach(nodes@, self.case_insensitive, patterns@),
                    nodes@[0].fail == 0,
                decreases nn - x,
            {
                if nodes[x].depth == d {
                    let num_edges = nodes[x].transitions.len();
                    let mut t: usize = 0;
                    while t < num_edges
                        invariant
                            nn == nodes@.len(),
                            x < nodes@.len(),
                            num_edges <= nodes@[x as int].transitions@.len(),
                            forall|n: int|
                                0 <= n < nodes@.len() ==> node_wf(
                                    #[trigger] nodes@[n],
                                    nodes@.len() as int,
                                    np,
                                ),
                            trie_edge_depths(nodes@),
                            depth_sane(nodes@),
                            fail_depths(nodes@),
                            trie_reach(nodes@, self.case_insensitive, patterns@),
                            nodes@[0].fail == 0,
                        decreases num_edges - t,
                    {
                        let g: String = nodes[x].transitions[t].0.clone();
                        let next: usize = nodes[x].transitions[t].1;

                        if x == 0 {
                            let ghost nb = nodes@;
                            proof {
                                assert(nodes@[next as int].depth == nodes@[x as int].depth + 1);
                                assert(next != 0);
                            }
                            nodes[next].fail = 0;
                            proof {
                                lemma_extends_after(nb, nodes@);
                                lemma_trie_reach_extends(
                                    nb,
                                    nodes@,
                                    self.case_insensitive,
                                    patterns@,
                                );
                            }
                        } else {
                            let ghost nodes0 = nodes@;
                            let mut f: usize = nodes[x].fail;
                            let mut hop: Option<usize> = trans_lookup(&nodes[f].transitions, &g);
                            while f != 0 && hop.is_none()
                                invariant
                                    nodes@ == nodes0,
                                    nn == nodes@.len(),
                                    f < nodes@.len(),
                                    x < nodes@.len(),
                                    0 < x,
                                    forall|n: int|
                                        0 <= n < nodes@.len() ==> node_wf(
                                            #[trigger] nodes@[n],
                                            nodes@.len() as int,
                                            np,
                                        ),
                                    depth_sane(nodes@),
                                    fail_depths(nodes@),
                                    nodes@[f as int].depth < nodes@[x as int].depth,
                                    hop == crate::automaton::spec_trans_lookup(
                                        nodes@[f as int].transitions@,
                                        g@,
                                    ),
                                decreases nodes@[f as int].depth,
                            {
                                f = nodes[f].fail;
                                hop = trans_lookup(&nodes[f].transitions, &g);
                            }
                            let fallback: usize = match hop {
                                Some(n) => {
                                    proof {
                                        lemma_trans_lookup_in_range(
                                            nodes@[f as int],
                                            nodes@.len() as int,
                                            np,
                                            g@,
                                        );
                                        lemma_trans_lookup_is_edge(
                                            nodes@[f as int].transitions@,
                                            g@,
                                        );
                                        assert(nodes@[n as int].depth == nodes@[f as int].depth
                                            + 1);
                                    }
                                    if n == next {
                                        0
                                    } else {
                                        n
                                    }
                                },
                                None => 0,
                            };
                            let ghost nb = nodes@;
                            proof {
                                assert(nodes@[next as int].depth == nodes@[x as int].depth + 1);
                                assert(fallback == 0 || nodes@[fallback as int].depth
                                    < nodes@[next as int].depth);
                                assert(next != 0);
                            }
                            nodes[next].fail = fallback;
                            proof {
                                lemma_extends_after(nb, nodes@);
                                lemma_trie_reach_extends(
                                    nb,
                                    nodes@,
                                    self.case_insensitive,
                                    patterns@,
                                );
                            }

                            // Inherit the fallback's outputs and weight.
                            let inherited = copy_usizes(&nodes[fallback].output);
                            let mut k: usize = 0;
                            while k < inherited.len()
                                invariant
                                    nn == nodes@.len(),
                                    next < nodes@.len(),
                                    x < nodes@.len(),
                                    num_edges <= nodes@[x as int].transitions@.len(),
                                    forall|q: int|
                                        0 <= q < inherited@.len() ==> (#[trigger] inherited@[q])
                                            < np,
                                    forall|n: int|
                                        0 <= n < nodes@.len() ==> node_wf(
                                            #[trigger] nodes@[n],
                                            nodes@.len() as int,
                                            np,
                                        ),
                                    trie_edge_depths(nodes@),
                                    depth_sane(nodes@),
                                    fail_depths(nodes@),
                                    trie_reach(nodes@, self.case_insensitive, patterns@),
                                    nodes@[0].fail == 0,
                                decreases inherited@.len() - k,
                            {
                                if !contains_usize(&nodes[next].output, inherited[k]) {
                                    let ghost nb2 = nodes@;
                                    nodes[next].output.push(inherited[k]);
                                    proof {
                                        lemma_extends_after(nb2, nodes@);
                                        lemma_trie_reach_extends(
                                            nb2,
                                            nodes@,
                                            self.case_insensitive,
                                            patterns@,
                                        );
                                    }
                                }
                                k = k + 1;
                            }
                            let fw = nodes[fallback].weight;
                            let ghost nb3 = nodes@;
                            if nodes[next].weight < fw {
                                nodes[next].weight = fw;
                            }
                            proof {
                                lemma_extends_after(nb3, nodes@);
                                lemma_trie_reach_extends(
                                    nb3,
                                    nodes@,
                                    self.case_insensitive,
                                    patterns@,
                                );
                            }
                        }

                        t = t + 1;
                    }
                }
                x = x + 1;
            }
            d = d + 1;
        }

        // Phase C: propagate weights up the fail chains, in decreasing index
        // order.
        let mut x: usize = nn;
        while x > 1
            invariant
                nn == nodes@.len(),
                x <= nn,
                forall|n: int|
                    0 <= n < nodes@.len() ==> node_wf(#[trigger] nodes@[n], nodes@.len() as int, np),
                trie_reach(nodes@, self.case_insensitive, patterns@),
                nodes@[0].fail == 0,
            decreases x,
        {
            x = x - 1;
            let f = nodes[x].fail;
            let fw = nodes[f].weight;
            let ghost nb = nodes@;
            if nodes[x].weight < fw {
                nodes[x].weight = fw;
            }
            proof {
                lemma_extends_after(nb, nodes@);
                lemma_trie_reach_extends(nb, nodes@, self.case_insensitive, patterns@);
            }
        }

        FuzzyAhoCorasick {
            nodes,
            patterns,
            similarity,
            limits: self.limits,
            penalties: self.penalties,
            case_insensitive: self.case_insensitive,
            beam_width: self.beam_width,
            max_pattern_grapheme_len: max_len,
        }
    }
}

impl Default for FuzzyAhoCorasickBuilder {
    /// Same as [`FuzzyAhoCorasickBuilder::new`].
    fn default() -> (r: Self)
        ensures
            r.similarity is None,
            r.limits is None,
            !r.case_insensitive,
            r.beam_width is None,
    {
        FuzzyAhoCorasickBuilder::new()
    }
}

/// The node reached from `node` by following the labels `labels[i..]` along
/// the trie's edges, if every step has an edge.
pub open spec fn walk_trie(
    nodes: Seq<Node>,
    node: int,
    labels: Seq<Seq<char>>,
    i: int,
) -> Option<int>
    decreases labels.len() - i,
{
    if i < 0 || i >= labels.len() {
        Some(node)
    } else if !(0 <= node < nodes.len()) {
        None
    } else {
        match crate::automaton::spec_trans_lookup(nodes[node].transitions@, labels[i]) {
            Some(nx) => walk_trie(nodes, nx as int, labels, i + 1),
            None => None,
        }
    }
}

/// Following pattern `p`'s labels from the root reaches a node whose output
/// holds `p`.
pub open spec fn pattern_reaches(nodes: Seq<Node>, ci: bool, pat: Pattern, p: PatternIndex) -> bool {
    match walk_trie(nodes, 0, crate::search::pattern_labels(ci, pat.pattern@), 0) {
        Some(nd) => 0 <= nd < nodes.len() && nodes[nd].output@.contains(p),
        None => false,
    }
}

/// Every nonempty pattern's trie path exists and ends in a node that outputs
/// it.
pub open spec fn trie_reach(nodes: Seq<Node>, ci: bool, patterns: Seq<Pattern>) -> bool {
    forall|p: int|
        0 <= p < patterns.len() && crate::search::pattern_labels(
            ci,
            (#[trigger] patterns[p]).pattern@,
        ).len() > 0 ==> pattern_reaches(nodes, ci, patterns[p], p as PatternIndex)
}

/// One node extends another: edges and outputs were only appended.
pub open spec fn node_extends(n1: Node, n2: Node) -> bool {
    &&& n1.transitions@.is_prefix_of(n2.transitions@)
    &&& n1.output@.is_prefix_of(n2.output@)
}

/// One trie extends another: nodes were only appended, and each existing
/// node's edges and outputs were only appended.
pub open spec fn trie_extends(ns1: Seq<Node>, ns2: Seq<Node>) -> bool {
    &&& ns1.len() <= ns2.len()
    &&& forall|n: int| 0 <= n < ns1.len() ==> node_extends(#[trigger] ns1[n], ns2[n])
}

/// A successful first-match lookup survives appending edges.
proof fn lemma_lookup_prefix(ts1: Seq<(String, usize)>, ts2: Seq<(String, usize)>, g: Seq<char>)
    requires
        ts1.is_prefix_of(ts2),
        crate::automaton::spec_trans_lookup(ts1, g) is Some,
    ensures
        crate::automaton::spec_trans_lookup(ts2, g) == crate::automaton::spec_trans_lookup(
            ts1,
            g,
        ),
    decreases ts1.len(),
{
    assert(ts1[0] == ts2[0]);
    if ts1[0].0@ != g {
        assert(ts1.drop_first().is_prefix_of(ts2.drop_first()));
        lemma_lookup_prefix(ts1.drop_first(), ts2.drop_first(), g);
    }
}

/// Appending an edge for a label that had none makes it the lookup's result.
proof fn lemma_lookup_push_new(ts: Seq<(String, usize)>, e: (String, usize), g: Seq<char>)
    requires
        crate::automaton::spec_trans_lookup(ts, g) is None,
        e.0@ == g,
    ensures
        crate::automaton::spec_trans_lookup(ts.push(e), g) == Some(e.1),
    decreases ts.len(),
{
    if ts.len() == 0 {
        assert(ts.push(e)[0] == e);
    } else {
        assert(ts.push(e)[0] == ts[0]);
        assert(ts.push(e).drop_first() =~= ts.drop_first().push(e));
        lemma_lookup_push_new(ts.drop_first(), e, g);
    }
}

/// A successful walk survives extension of the trie.
proof fn lemma_walk_extends(
    ns1: Seq<Node>,
    ns2: Seq<Node>,
    node: int,
    labels: Seq<Seq<char>>,
    i: int,
)
    requires
        trie_extends(ns1, ns2),
        walk_trie(ns1, node, labels, i) is Some,
    ensures
        walk_trie(ns2, node, labels, i) == walk_trie(ns1, node, labels, i),
    decreases labels.len() - i,
{
    if 0 <= i < labels.len() {
        lemma_lookup_prefix(ns1[node].transitions@, ns2[node].transitions@, labels[i]);
        match crate::automaton::spec_trans_lookup(ns1[node].transitions@, labels[i]) {
            Some(nx) => {
                lemma_walk_extends(ns1, ns2, nx as int, labels, i + 1);
            },
            None => {},
        }
    }
}

/// A reached output survives extension of the trie.
proof fn lemma_reaches_extends(
    ns1: Seq<Node>,
    ns2: Seq<Node>,
    ci: bool,
    pat: Pattern,
    p: PatternIndex,
)
    requires
        trie_extends(ns1, ns2),
        pattern_reaches(ns1, ci, pat, p),
    ensures
        pattern_reaches(ns2, ci, pat, p),
{
    let labels = crate::search::pattern_labels(ci, pat.pattern@);
    lemma_walk_extends(ns1, ns2, 0, labels, 0);
    let nd = walk_trie(ns1, 0, labels, 0)->0;
    let q = choose|q: int| 0 <= q < ns1[nd].output@.len() && ns1[nd].output@[q] == p;
    assert(ns2[nd].output@[q] == p);
}

/// Extending a successful walk by one step whose edge exists.
proof fn lemma_walk_step(
    ns: Seq<Node>,
    node: int,
    labels: Seq<Seq<char>>,
    i: int,
    j: int,
    cur: int,
    nxt: usize,
)
    requires
        0 <= i <= j < labels.len(),
        walk_trie(ns, node, labels.take(j), i) == Some(cur),
        0 <= cur < ns.len(),
        crate::automaton::spec_trans_lookup(ns[cur].transitions@, labels[j]) == Some(nxt),
    ensures
        walk_trie(ns, node, labels.take(j + 1), i) == Some(nxt as int),
    decreases j - i,
{
    if i == j {
        assert(labels.take(j).len() == j);
        assert(labels.take(j + 1).len() == j + 1);
        assert(walk_trie(ns, node, labels.take(j), i) == Some(node));
        assert(node == cur);
        assert(labels.take(j + 1)[i] == labels[j]);
        assert(walk_trie(ns, nxt as int, labels.take(j + 1), i + 1) == Some(nxt as int));
    } else {
        assert(labels.take(j)[i] == labels[i]);
        assert(labels.take(j + 1)[i] == labels[i]);
        match crate::automaton::spec_trans_lookup(ns[node].transitions@, labels[i]) {
            Some(nx) => {
                lemma_walk_step(ns, nx as int, labels, i + 1, j, cur, nxt);
            },
            None => {
                assert(false);
            },
        }
    }
}

/// Every nonempty pattern among the first `i` reaches its output node.
pub open spec fn reach_upto(nodes: Seq<Node>, ci: bool, patterns: Seq<Pattern>, i: int) -> bool {
    forall|p: int|
        0 <= p < i && crate::search::pattern_labels(
            ci,
            (#[trigger] patterns[p]).pattern@,
        ).len() > 0 ==> pattern_reaches(nodes, ci, patterns[p], p as PatternIndex)
}

/// Elementwise prefix facts give trie extension.
proof fn lemma_extends_after(ns1: Seq<Node>, ns2: Seq<Node>)
    requires
        ns1.len() <= ns2.len(),
        forall|n: int|
            #![trigger ns2[n]]
            0 <= n < ns1.len() ==> ns1[n].transitions@.len() <= ns2[n].transitions@.len()
                && ns1[n].output@.len() <= ns2[n].output@.len() && (forall|q: int|
                0 <= q < ns1[n].transitions@.len() ==> ns1[n].transitions@[q]
                    == #[trigger] ns2[n].transitions@[q]) && (forall|q: int|
                0 <= q < ns1[n].output@.len() ==> ns1[n].output@[q]
                    == #[trigger] ns2[n].output@[q]),
    ensures
        trie_extends(ns1, ns2),
{
    assert forall|n: int| 0 <= n < ns1.len() implies node_extends(#[trigger] ns1[n], ns2[n]) by {
        assert(ns1[n].transitions@ =~= ns2[n].transitions@.subrange(
            0,
            ns1[n].transitions@.len() as int,
        ));
        assert(ns1[n].output@ =~= ns2[n].output@.subrange(0, ns1[n].output@.len() as int));
    }
}

/// Carries the partial walk and the reach facts across a trie extension.
proof fn lemma_carry(
    ns1: Seq<Node>,
    ns2: Seq<Node>,
    ci: bool,
    patterns: Seq<Pattern>,
    i: int,
    labels: Seq<Seq<char>>,
    jj: int,
    cur: int,
)
    requires
        trie_extends(ns1, ns2),
        reach_upto(ns1, ci, patterns, i),
        walk_trie(ns1, 0, labels.take(jj), 0) == Some(cur),
    ensures
        reach_upto(ns2, ci, patterns, i),
        walk_trie(ns2, 0, labels.take(jj), 0) == Some(cur),
{
    lemma_walk_extends(ns1, ns2, 0, labels.take(jj), 0);
    assert forall|p: int|
        0 <= p < i && crate::search::pattern_labels(
            ci,
            (#[trigger] patterns[p]).pattern@,
        ).len() > 0 implies pattern_reaches(ns2, ci, patterns[p], p as PatternIndex) by {
        lemma_reaches_extends(ns1, ns2, ci, patterns[p], p as PatternIndex);
    }
}

/// Carries the reach facts for the first `i` patterns across a trie
/// extension.
proof fn lemma_reach_upto_extends(
    ns1: Seq<Node>,
    ns2: Seq<Node>,
    ci: bool,
    patterns: Seq<Pattern>,
    i: int,
)
    requires
        trie_extends(ns1, ns2),
        reach_upto(ns1, ci, patterns, i),
    ensures
        reach_upto(ns2, ci, patterns, i),
{
    assert forall|p: int|
        0 <= p < i && crate::search::pattern_labels(
            ci,
            (#[trigger] patterns[p]).pattern@,
        ).len() > 0 implies pattern_reaches(ns2, ci, patterns[p], p as PatternIndex) by {
        lemma_reaches_extends(ns1, ns2, ci, patterns[p], p as PatternIndex);
    }
}

/// Carries the full reach facts across a trie extension.
proof fn lemma_trie_reach_extends(
    ns1: Seq<Node>,
    ns2: Seq<Node>,
    ci: bool,
    patterns: Seq<Pattern>,
)
    requires
        trie_extends(ns1, ns2),
        trie_reach(ns1, ci, patterns),
    ensures
        trie_reach(ns2, ci, patterns),
{
    assert forall|p: int|
        0 <= p < patterns.len() && crate::search::pattern_labels(
            ci,
            (#[trigger] patterns[p]).pattern@,
        ).len() > 0 implies pattern_reaches(ns2, ci, patterns[p], p as PatternIndex) by {
        lemma_reaches_extends(ns1, ns2, ci, patterns[p], p as PatternIndex);
    }
}

/// How a built pattern relates to the one given: every field is kept, except
/// that the grapheme count is corrected to the real count of the pattern
/// text's grapheme clusters whenever that count lies in the supported range.
pub open spec fn pattern_built(given: Pattern, built: Pattern) -> bool {
    &&& built.pattern@ == given.pattern@
    &&& built.weight == given.weight
    &&& built.limits == given.limits
    &&& built.custom_unique_id == given.custom_unique_id
    &&& built.grapheme_len == (if 1 <= graphemes_of(given.pattern@).len() <= MAX_GRAPHEMES {
        graphemes_of(given.pattern@).len() as int
    } else {
        given.grapheme_len as int
    })
}

/// Every trie edge leads to a node one deeper than its source.
pub open spec fn trie_edge_depths(nodes: Seq<Node>) -> bool {
    forall|n: int, t: int|
        0 <= n < nodes.len() && 0 <= t < nodes[n].transitions@.len()
            ==> #[trigger] nodes[nodes[n].transitions@[t].1 as int].depth == nodes[n].depth + 1
}

/// Every fail link leads to the root or to a strictly shallower node; the
/// fail-chain walk terminates on that account.
pub open spec fn fail_depths(nodes: Seq<Node>) -> bool {
    forall|n: int|
        0 < n < nodes.len() ==> (#[trigger] nodes[n].fail == 0 || nodes[nodes[n].fail as int].depth
            < nodes[n].depth)
}

/// The root sits at depth zero and every other node strictly below it.
pub open spec fn depth_sane(nodes: Seq<Node>) -> bool {
    &&& nodes.len() > 0 ==> nodes[0].depth == 0
    &&& forall|n: int| 0 < n < nodes.len() ==> (#[trigger] nodes[n].depth) >= 1
}

/// A successful edge lookup returns the target of one of the listed edges.
pub(crate) proof fn lemma_trans_lookup_is_edge(ts: Seq<(String, usize)>, g: Seq<char>)
    ensures
        match crate::automaton::spec_trans_lookup(ts, g) {
            Some(n) => exists|k: int| 0 <= k < ts.len() && (#[trigger] ts[k]).1 == n,
            None => true,
        },
    decreases ts.len(),
{
    if ts.len() > 0 {
        if ts[0].0@ == g {
            assert(ts[0].1 == ts[0].1);
        } else {
            lemma_trans_lookup_is_edge(ts.drop_first(), g);
            match crate::automaton::spec_trans_lookup(ts.drop_first(), g) {
                Some(n) => {
                    let k = choose|k: int|
                        0 <= k < ts.drop_first().len() && (#[trigger] ts.drop_first()[k]).1 == n;
                    assert(ts[k + 1] == ts.drop_first()[k]);
                },
                None => {},
            }
        }
    }
}

/// A successful edge lookup returns an in-range node index.
pub(crate) proof fn lemma_trans_lookup_in_range(node: Node, num_nodes: int, num_patterns: int, g: Seq<char>)
    requires
        node_wf(node, num_nodes, num_patterns),
    ensures
        match crate::automaton::spec_trans_lookup(node.transitions@, g) {
            Some(n) => n < num_nodes,
            None => true,
        },
{
    lemma_trans_lookup_in_seq(node.transitions@, g, num_nodes);
}

/// A successful edge lookup returns one of the listed targets.
proof fn lemma_trans_lookup_in_seq(ts: Seq<(String, usize)>, g: Seq<char>, num_nodes: int)
    requires
        forall|t: int| 0 <= t < ts.len() ==> (#[trigger] ts[t]).1 < num_nodes,
    ensures
        match crate::automaton::spec_trans_lookup(ts, g) {
            Some(n) => n < num_nodes,
            None => true,
        },
    decreases ts.len(),
{
    if ts.len() > 0 && ts[0].0@ != g {
        lemma_trans_lookup_in_seq(ts.drop_first(), g, num_nodes);
    }
}

/// A pattern of bounded byte length has at most that many graphemes.
proof fn lemma_grapheme_count_bound(s: Seq<char>, r: Seq<(usize, String)>)
    requires
        grapheme_split_post(s, r),
        byte_len(s) <= MAX_PATTERN_BYTES,
    ensures
        r.len() <= MAX_PATTERN_BYTES,
{
    crate::text::lemma_grapheme_count(s, r);
}

/// The prefix-weight arithmetic stays inside `u64`.
proof fn lemma_pmf_bounds(w: int, wl: int, j: int)
    requires
        1 <= w <= SCALE,
        0 <= j < wl <= MAX_PATTERN_BYTES,
    ensures
        w * (wl - j) * SCALE_SQ <= SCALE * MAX_PATTERN_BYTES * SCALE_SQ,
        SCALE * MAX_PATTERN_BYTES * SCALE_SQ < 0x10000000000000000,
{
    assert(w * (wl - j) * SCALE_SQ <= SCALE * MAX_PATTERN_BYTES * SCALE_SQ) by (nonlinear_arith)
        requires
            1 <= w <= SCALE,
            0 <= j < wl <= MAX_PATTERN_BYTES,
    ;
}

} // verus!
