use fuzzy_aho_corasick::{
    FuzzyAhoCorasick, FuzzyAhoCorasickBuilder, FuzzyLimits, Pattern, Segment, SimilarityTable,
    SCALE,
};

fn two_name_engine() -> FuzzyAhoCorasick {
    FuzzyAhoCorasickBuilder::new()
        .fuzzy(FuzzyLimits::new().edits(2))
        .build(vec!["saddam".into(), "hussein".into()])
}

#[test]
fn span_validity_concrete() {
    let engine = two_name_engine();
    let haystack = "xxsaddmhusseinyy";
    let result = engine.search(haystack, 30);
    assert!(!result.is_empty());
    for m in result.inner.iter() {
        assert!(m.start < m.end);
        assert!(m.end <= haystack.len());
        assert_eq!(&haystack[m.start..m.end], m.text.as_str());
    }
}

#[test]
fn threshold_concrete() {
    let engine = two_name_engine();
    let t: u32 = 60;
    let result = engine.search("saddmhussein", t);
    assert!(!result.is_empty());
    for m in result.inner.iter() {
        // similarity >= t/SCALE, compared exactly by cross-multiplication
        assert!(m.similarity.num as u128 * SCALE as u128 >= t as u128 * m.similarity.den as u128);
    }
}

#[test]
fn limit_compliance_concrete() {
    let engine = two_name_engine();
    let result = engine.search("saddmhussein", 30);
    assert!(!result.is_empty());
    for m in result.inner.iter() {
        assert!(m.edits <= 2);
    }

    // With no limits configured at all, only exact matches are admitted, and
    // every edit count is zero.
    let exact_only = FuzzyAhoCorasickBuilder::new().build(vec!["saddam".into()]);
    let result = exact_only.search("saddam saddm saddamm", 0);
    assert!(!result.is_empty());
    for m in result.inner.iter() {
        assert_eq!(m.edits, 0);
        assert_eq!(m.insertions, 0);
        assert_eq!(m.deletions, 0);
        assert_eq!(m.substitutions, 0);
        assert_eq!(m.swaps, 0);
        assert_eq!(m.text, "saddam");
    }
}

#[test]
fn edit_sum_concrete() {
    let engine = two_name_engine();
    let result = engine.search("sadammhuzein", 20);
    assert!(!result.is_empty());
    for m in result.inner.iter() {
        assert_eq!(m.edits, m.insertions + m.deletions + m.substitutions + m.swaps);
    }
}

#[test]
fn similarity_formula_concrete() {
    // Pattern "saddam" (6 graphemes, weight 1.0) matching "saddm" uses one
    // deletion at penalty 0.7, so similarity is exactly (6 - 0.7) / 6.
    let engine = two_name_engine();
    let result = engine.search("saddmhussein", 30);
    let m = result
        .inner
        .iter()
        .find(|m| m.pattern.as_str() == "saddam" && m.text == "saddm")
        .expect("the one-deletion match must be reported");
    assert_eq!(m.penalty, 7000);
    assert_eq!(m.similarity.num, (6 * 10000 - 7000) * 100);
    assert_eq!(m.similarity.den, 6 * 1000000);
    assert_eq!(m.deletions, 1);
    assert_eq!(m.edits, 1);
}

#[test]
fn non_overlap_concrete() {
    let engine = two_name_engine();
    let result = engine.search_non_overlapping("saddamhussein saddam", 50);
    assert!(result.len() >= 2);
    for a in 0..result.len() {
        for b in 0..result.len() {
            if a != b {
                let ma = &result.inner[a];
                let mb = &result.inner[b];
                assert!(ma.end <= mb.start || mb.end <= ma.start);
            }
        }
    }
}

#[test]
fn uniqueness_concrete() {
    // Two patterns sharing a custom identity may together win only one span.
    let engine = FuzzyAhoCorasickBuilder::new().build(vec![
        Pattern::from("AAA").custom_unique_id(7),
        Pattern::from("BBB").custom_unique_id(7),
    ]);
    let result = engine.search_non_overlapping_unique("AAA BBB", 80);
    assert_eq!(result.len(), 1);

    // With distinct identities both are kept.
    let engine = FuzzyAhoCorasickBuilder::new().build(vec![
        Pattern::from("AAA").custom_unique_id(7),
        Pattern::from("BBB").custom_unique_id(8),
    ]);
    let result = engine.search_non_overlapping_unique("AAA BBB", 80);
    assert_eq!(result.len(), 2);
}

#[test]
fn determinism_two_runs() {
    let engine = FuzzyAhoCorasickBuilder::new()
        .fuzzy(FuzzyLimits::new().edits(2))
        .case_insensitive(true)
        .build(vec!["saddam".into(), "hussein".into(), "ali".into()]);
    let a = engine.search("saddm hussien ali barzan", 40);
    let b = engine.search("saddm hussien ali barzan", 40);
    assert_eq!(a.len(), b.len());
    for k in 0..a.len() {
        let ma = &a.inner[k];
        let mb = &b.inner[k];
        assert_eq!(ma.start, mb.start);
        assert_eq!(ma.end, mb.end);
        assert_eq!(ma.pattern_index, mb.pattern_index);
        assert_eq!(ma.text, mb.text);
        assert_eq!(ma.similarity.num, mb.similarity.num);
        assert_eq!(ma.similarity.den, mb.similarity.den);
        assert_eq!(ma.edits, mb.edits);
        assert_eq!(ma.insertions, mb.insertions);
        assert_eq!(ma.deletions, mb.deletions);
        assert_eq!(ma.substitutions, mb.substitutions);
        assert_eq!(ma.swaps, mb.swaps);
    }
}

#[test]
fn monotone_threshold() {
    // Lowering the threshold only adds matches: the keys found at 70 are a
    // subset of the keys found at 30.
    let engine = two_name_engine();
    let haystack = "saddm hussien sadam";
    let low = engine.search(haystack, 30);
    let high = engine.search(haystack, 70);
    for m in high.inner.iter() {
        assert!(
            low.inner.iter().any(|l| l.start == m.start && l.end == m.end
                && l.pattern_index == m.pattern_index),
            "match at [{}, {}) of pattern {} found at 70 but not at 30",
            m.start,
            m.end,
            m.pattern_index
        );
    }
}

#[test]
fn exact_match_admits() {
    // A weight-1.0 pattern searched inside itself at threshold 1.0 yields a
    // perfect match: similarity exactly 1, no edits, the pattern's own text.
    let engine = two_name_engine();
    let result = engine.search("saddam", 100);
    let m = result
        .inner
        .iter()
        .find(|m| m.pattern.as_str() == "saddam")
        .expect("exact self-match must be admitted");
    assert_eq!(m.similarity.num, m.similarity.den);
    assert_eq!(m.edits, 0);
    assert_eq!(m.text, "saddam");
    assert_eq!(m.start, 0);
    assert_eq!(m.end, 6);
}

#[test]
fn scenario_two_exact_neighbours() {
    // ["saddam","hussein"], edits 2, haystack "saddamhussein", threshold 0.5:
    // two perfect matches at [0,6) and [6,13).
    let engine = two_name_engine();
    let result = engine.search("saddamhussein", 50);
    let a = result
        .inner
        .iter()
        .find(|m| m.pattern.as_str() == "saddam")
        .expect("saddam");
    assert_eq!((a.start, a.end), (0, 6));
    assert_eq!(a.similarity.num, a.similarity.den);
    let b = result
        .inner
        .iter()
        .find(|m| m.pattern.as_str() == "hussein")
        .expect("hussein");
    assert_eq!((b.start, b.end), (6, 13));
    assert_eq!(b.similarity.num, b.similarity.den);
}

#[test]
fn scenario_one_deletion() {
    // "saddmhussein" at threshold 0.3 contains a match for "saddam" with text
    // "saddm".
    let engine = two_name_engine();
    let result = engine.search("saddmhussein", 30);
    assert!(
        result
            .inner
            .iter()
            .any(|m| m.pattern.as_str() == "saddam" && m.text == "saddm")
    );
}

#[test]
fn scenario_swap_counted() {
    // "ALIKOYN" at threshold 0.6 contains KONY matched as "KOYN" with exactly
    // one swap.
    let engine = FuzzyAhoCorasickBuilder::new()
        .fuzzy(FuzzyLimits::new().edits(2))
        .case_insensitive(true)
        .build(vec!["ALI".into(), "KONY".into()]);
    let result = engine.search_non_overlapping("ALIKOYN", 60);
    let m = result
        .inner
        .iter()
        .find(|m| m.pattern.as_str() == "KONY")
        .expect("KONY");
    assert_eq!(m.text, "KOYN");
    assert_eq!(m.swaps, 1);
}

#[test]
fn scenario_longest_wins() {
    // The overlapping shorter pattern loses: exactly one match remains.
    let engine = FuzzyAhoCorasickBuilder::new()
        .build(vec!["JOINT STOCK COMPANY".into(), "STOCK".into()]);
    let result = engine.search_non_overlapping("JOINT STOCK COMPANY GAZPROM", 80);
    assert_eq!(result.len(), 1);
    assert_eq!(result.inner[0].pattern.as_str(), "JOINT STOCK COMPANY");
}

#[test]
fn scenario_three_in_order() {
    // Three matches ordered by start: LOREM as "LrEM", IPSUM as "ISuM",
    // LOREM again as "Lorm".
    let engine = FuzzyAhoCorasickBuilder::new()
        .fuzzy(FuzzyLimits::new().edits(1))
        .case_insensitive(true)
        .build(vec!["LOREM".into(), "IPSUM".into()]);
    let result = engine.search_non_overlapping("LrEM ISuM Lorm ZZZ", 80);
    assert_eq!(result.len(), 3);
    assert_eq!(result.inner[0].text, "LrEM");
    assert_eq!(result.inner[0].pattern.as_str(), "LOREM");
    assert_eq!(result.inner[1].text, "ISuM");
    assert_eq!(result.inner[1].pattern.as_str(), "IPSUM");
    assert_eq!(result.inner[2].text, "Lorm");
    assert_eq!(result.inner[2].pattern.as_str(), "LOREM");
    assert!(result.inner[0].start < result.inner[1].start);
    assert!(result.inner[1].start < result.inner[2].start);
}

#[test]
fn empty_haystack_empty_result() {
    let engine = two_name_engine();
    assert!(engine.search("", 50).is_empty());
    assert!(engine.search_unsorted("", 0).is_empty());
}

#[test]
fn grapheme_clusters_count_as_one() {
    // A regional-indicator flag is one grapheme cluster: skipping it is one
    // insertion, so the match survives an edit budget of one. Byte offsets
    // still point into the original text.
    let engine = FuzzyAhoCorasickBuilder::new()
        .build(vec![Pattern::from("xa").fuzzy(FuzzyLimits::new().edits(1))]);
    let haystack = "x\u{1F1F7}\u{1F1FA}a";
    let result = engine.search(haystack, 50);
    let m = result
        .inner
        .iter()
        .find(|m| m.insertions == 1)
        .expect("one insertion over the flag cluster");
    assert_eq!(m.start, 0);
    assert_eq!(m.end, haystack.len());
    assert_eq!(&haystack[m.start..m.end], m.text.as_str());
}

#[test]
fn multibyte_offsets() {
    let engine = FuzzyAhoCorasickBuilder::new()
        .case_insensitive(true)
        .build(vec!["юрий".into()]);
    let result = engine.search("ЮРИЙ ГАГАРИН", 90);
    let m = result.inner.iter().next().expect("match");
    assert_eq!(m.start, 0);
    assert_eq!(m.end, 8);
}

#[test]
fn sort_orders() {
    let engine = two_name_engine();
    let mut unsorted = engine.search_unsorted("saddamhussein sadam", 40);
    unsorted.greedy_sort();
    for k in 0..unsorted.len().saturating_sub(1) {
        let a = &unsorted.inner[k];
        let b = &unsorted.inner[k + 1];
        assert!(a.pattern.as_str().len() >= b.pattern.as_str().len());
    }
    let mut unsorted = engine.search_unsorted("saddamhussein sadam", 40);
    unsorted.coverage_weighted_sort();
    let mut unsorted = engine.search_unsorted("saddamhussein sadam", 40);
    unsorted.default_sort();
    for k in 0..unsorted.len().saturating_sub(1) {
        let a = &unsorted.inner[k];
        let b = &unsorted.inner[k + 1];
        // descending similarity as exact rationals
        assert!(
            a.similarity.num as u128 * b.similarity.den as u128
                >= b.similarity.num as u128 * a.similarity.den as u128
        );
    }
}

#[test]
fn retain_and_filter() {
    let engine = two_name_engine();
    let mut result = engine.search_non_overlapping("saddam hussein", 80);
    let filtered = result.filter(|m| m.pattern_index == 1);
    assert!(filtered.inner.iter().all(|m| m.pattern_index == 1));
    result.retain(|m| m.pattern_index == 0);
    assert!(result.inner.iter().all(|m| m.pattern_index == 0));
    assert_eq!(result.len(), 1);
}

#[test]
fn spans_and_strings_getters() {
    let engine = two_name_engine();
    let result = engine.search_non_overlapping("saddamhussein", 80);
    assert_eq!(result.matched_spans(), vec![(0, 6), (6, 13)]);
    assert_eq!(
        result.matched_strings(),
        vec!["saddam".to_string(), "hussein".to_string()]
    );
}

#[test]
fn engine_segment_iter_roundtrip() {
    let engine = FuzzyAhoCorasickBuilder::new()
        .fuzzy(FuzzyLimits::new().edits(1))
        .case_insensitive(true)
        .build(vec!["LOREM".into(), "IPSUM".into()]);
    let haystack = "xxLrEMyyISuMzz";
    let segs = engine.segment_iter(haystack, 80);
    // The segment texts concatenate back to the haystack.
    let mut rebuilt = String::new();
    for s in segs.iter() {
        assert!(!s.is_empty());
        rebuilt.push_str(s.as_str());
    }
    assert_eq!(rebuilt, haystack);
    // Matched and unmatched segments alternate here.
    let kinds: Vec<bool> = segs.iter().map(|s| s.matched().is_some()).collect();
    assert_eq!(kinds, vec![false, true, false, true, false]);
    match &segs[1] {
        Segment::Matched(m) => {
            assert_eq!(m.text, "LrEM");
            assert_eq!(s_len(&segs[1]), 4);
        }
        Segment::Unmatched(_) => panic!("expected a match"),
    }
    match &segs[0] {
        Segment::Unmatched(u) => {
            assert_eq!(u.text, "xx");
            assert_eq!((u.start, u.end), (0, 2));
        }
        Segment::Matched(_) => panic!("expected a gap"),
    }
}

fn s_len(s: &fuzzy_aho_corasick::Segment) -> usize {
    s.len()
}

#[test]
fn custom_similarity_table() {
    // A table that rates x/y highly makes the substitution cheap; without it
    // the same substitution costs the full penalty and misses the threshold.
    let mut table = SimilarityTable::empty();
    table.insert('x', 'y', 90);
    let lenient = FuzzyAhoCorasickBuilder::new()
        .similarity(table)
        .fuzzy(FuzzyLimits::new().substitutions(1))
        .build(vec!["xa".into()]);
    let found = lenient.search("ya", 80);
    assert!(found.inner.iter().any(|m| m.text == "ya"));
    // similarity = (2 - 1.0*(1 - 0.9)) / 2 = 0.95, exactly
    let m = found.inner.iter().find(|m| m.text == "ya").unwrap();
    assert_eq!(m.similarity.num, (2 * 10000 - 1000) * 100);
    assert_eq!(m.similarity.den, 2 * 1000000);

    let strict = FuzzyAhoCorasickBuilder::new()
        .similarity(SimilarityTable::empty())
        .fuzzy(FuzzyLimits::new().substitutions(1))
        .build(vec!["xa".into()]);
    // With an empty table the substitution costs 1.0: (2 - 1)/2 = 0.5 < 0.8.
    assert!(strict.search("ya", 80).is_empty());
}

#[test]
fn threshold_above_one_empty() {
    // A threshold above 1.0 admits nothing: every similarity is at most the
    // pattern weight, which is at most 1.0.
    let engine = two_name_engine();
    assert!(engine.search("saddamhussein", 101).is_empty());
    assert!(engine.search_unsorted("saddamhussein", 200).is_empty());
    assert!(engine.search_non_overlapping("saddamhussein", 101).is_empty());
}

#[test]
fn duplicate_similarity_pair_last_wins() {
    // Inserting the same pair twice keeps the later value.
    let mut table = SimilarityTable::empty();
    table.insert('x', 'y', 20);
    table.insert('x', 'y', 90);
    let engine = FuzzyAhoCorasickBuilder::new()
        .similarity(table)
        .fuzzy(FuzzyLimits::new().substitutions(1))
        .build(vec!["xa".into()]);
    let found = engine.search("ya", 80);
    let m = found.inner.iter().find(|m| m.text == "ya").expect("match");
    // substitution cost 1.0 * (1 - 0.9): similarity (2 - 0.1) / 2 exactly
    assert_eq!(m.similarity.num, (2 * 10000 - 1000) * 100);
    // With the first value winning instead, the cost would be 1.0 * (1 - 0.2)
    // and the candidate would fall below the threshold.
}

#[test]
fn built_patterns_carry_true_grapheme_count() {
    // The builder corrects a hand-set grapheme count to the real number of
    // grapheme clusters, so the similarity formula cannot be skewed.
    let mut p = Pattern::from("abc");
    p.grapheme_len = 1;
    let engine = FuzzyAhoCorasickBuilder::new().build(vec![p]);
    assert_eq!(engine.patterns()[0].grapheme_len, 3);
    let result = engine.search("abc", 100);
    let m = result.inner.iter().next().expect("exact match");
    assert_eq!(m.similarity.num, m.similarity.den);
    assert_eq!(m.similarity.den, 3 * 1000000);
}
