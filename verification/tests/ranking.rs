use findr::matching::{score_candidate, Candidate, ScoredMatch, MAX_QUERY_BYTES};
use findr::ranking::{rank_candidates, rank_matches, ranks_before};

fn candidate(path: &str, name: &str) -> Candidate {
    Candidate { path: path.to_string(), name: Some(name.to_string()) }
}

fn fruit() -> Vec<Candidate> {
    vec![
        candidate("./apple.txt", "apple.txt"),
        candidate("./banana.rs", "banana.rs"),
        candidate("./app_config.yaml", "app_config.yaml"),
    ]
}

fn entry(id: usize, score: u16) -> ScoredMatch {
    ScoredMatch {
        id,
        path: format!("./file{}", id),
        name: format!("file{}", id),
        score,
        positions: vec![],
    }
}

fn reference(name: &str, query: &str) -> Option<(u16, Vec<u32>)> {
    let mut matcher = nucleo::Matcher::default();
    let mut name_buf = Vec::new();
    let mut query_buf = Vec::new();
    let mut positions = Vec::new();
    let score = matcher.fuzzy_indices(
        nucleo::Utf32Str::new(name, &mut name_buf),
        nucleo::Utf32Str::new(query, &mut query_buf),
        &mut positions,
    );
    score.map(|s| (s, positions))
}

fn ids(ranked: &Vec<ScoredMatch>) -> Vec<usize> {
    ranked.iter().map(|m| m.id).collect()
}

#[test]
fn score_candidate_reports_what_the_matcher_finds() {
    let mut matcher = nucleo::Matcher::default();
    let apple = candidate("./dir/Apple.TXT", "Apple.TXT");
    let found = score_candidate(&mut matcher, &apple, 7, "ale").unwrap();
    let (score, positions) = reference("apple.txt", "ale").unwrap();
    assert!(score > 0);
    assert_eq!(found.id, 7);
    assert_eq!(found.path, "./dir/Apple.TXT");
    assert_eq!(found.name, "apple.txt");
    assert_eq!(found.score, score);
    assert_eq!(found.positions, positions);
    assert_eq!(found.positions.len(), 3);
}

#[test]
fn score_candidate_lowers_the_name_beyond_ascii() {
    let mut matcher = nucleo::Matcher::default();
    let found = score_candidate(&mut matcher, &candidate("./ÄRGER", "ÄRGER"), 0, "").unwrap();
    assert_eq!(found.name, "ärger");
}

#[test]
fn score_candidate_rejects_what_does_not_match() {
    let mut matcher = nucleo::Matcher::default();
    assert_eq!(score_candidate(&mut matcher, &candidate("./banana.rs", "banana.rs"), 1, "app"), None);
    assert_eq!(score_candidate(&mut matcher, &candidate("./a", "a"), 0, "ab"), None);
}

#[test]
fn matcher_configuration_of_the_caller_does_not_change_the_score() {
    let mut plain = nucleo::Matcher::default();
    let mut paths = nucleo::Matcher::new(nucleo::Config::DEFAULT.match_paths());
    paths.config.ignore_case = false;
    paths.config.prefer_prefix = true;
    let c = candidate("./src/main.rs", "Main.rs");
    let a = score_candidate(&mut plain, &c, 0, "mr");
    let b = score_candidate(&mut paths, &c, 0, "mr");
    assert!(a.is_some());
    assert_eq!(a, b);
}

#[test]
fn empty_query_scores_zero_without_positions() {
    let mut matcher = nucleo::Matcher::default();
    let found = score_candidate(&mut matcher, &candidate("./x", "x"), 3, "").unwrap();
    assert_eq!(found.score, 0);
    assert!(found.positions.is_empty());
    let blank = score_candidate(&mut matcher, &candidate("./", ""), 4, "").unwrap();
    assert_eq!(blank.score, 0);
}

#[test]
fn query_beyond_the_limit_matches_nothing() {
    let mut matcher = nucleo::Matcher::default();
    let mut long = String::new();
    for _ in 0..(MAX_QUERY_BYTES + 1) {
        long.push('a');
    }
    let c = candidate("./long", &long);
    assert_eq!(score_candidate(&mut matcher, &c, 0, &long), None);
    let at_limit = &long[..MAX_QUERY_BYTES];
    let c = candidate("./long", at_limit);
    assert!(score_candidate(&mut matcher, &c, 0, at_limit).is_some());
}

#[test]
fn ranks_before_goes_by_score_then_by_place() {
    assert!(ranks_before(&entry(5, 9), &entry(1, 3)));
    assert!(!ranks_before(&entry(1, 3), &entry(5, 9)));
    assert!(ranks_before(&entry(1, 3), &entry(5, 3)));
    assert!(!ranks_before(&entry(5, 3), &entry(1, 3)));
    assert!(!ranks_before(&entry(1, 3), &entry(1, 3)));
}

#[test]
fn rank_matches_orders_by_descending_score() {
    let ranked = rank_matches(vec![entry(0, 3), entry(1, 9), entry(2, 1), entry(3, 7)]);
    assert_eq!(ids(&ranked), vec![1, 3, 0, 2]);
    assert_eq!(ranked[0], entry(1, 9));
}

#[test]
fn rank_matches_keeps_candidate_order_on_ties() {
    let ranked = rank_matches(vec![
        entry(0, 5),
        entry(1, 8),
        entry(2, 5),
        entry(3, 8),
        entry(4, 5),
        entry(5, 8),
        entry(6, 1),
    ]);
    assert_eq!(ids(&ranked), vec![1, 3, 5, 0, 2, 4, 6]);
}

#[test]
fn rank_matches_goes_by_place_whatever_the_input_order() {
    let ranked = rank_matches(vec![entry(4, 5), entry(2, 5), entry(9, 5), entry(0, 5)]);
    assert_eq!(ids(&ranked), vec![0, 2, 4, 9]);
}

#[test]
fn rank_matches_handles_empty_and_single_lists() {
    assert_eq!(rank_matches(vec![]), vec![]);
    assert_eq!(rank_matches(vec![entry(3, 2)]), vec![entry(3, 2)]);
}

#[test]
fn rank_matches_sorts_a_long_list() {
    let mut input = Vec::new();
    for id in 0..1000usize {
        input.push(entry(id, ((id * 7919) % 13) as u16));
    }
    let ranked = rank_matches(input.clone());
    assert_eq!(ranked.len(), 1000);
    for pair in ranked.windows(2) {
        assert!(ranks_before(&pair[0], &pair[1]));
    }
    let mut seen = ids(&ranked);
    seen.sort();
    assert_eq!(seen, (0..1000).collect::<Vec<usize>>());
    for m in &ranked {
        assert_eq!(*m, input[m.id]);
    }
}

#[test]
fn ranking_fruit_for_app() {
    let mut matcher = nucleo::Matcher::default();
    let ranked = rank_candidates(&mut matcher, &fruit(), "app");
    // banana.rs holds no p: it is no match and is left out
    let mut found = ids(&ranked);
    found.sort();
    assert_eq!(found, vec![0, 2]);
    let apple = reference("apple.txt", "app").unwrap();
    let config = reference("app_config.yaml", "app").unwrap();
    assert_eq!(reference("banana.rs", "app"), None);
    let expected = if config.0 > apple.0 { vec![2, 0] } else { vec![0, 2] };
    assert_eq!(ids(&ranked), expected);
    for m in &ranked {
        let (score, positions) = reference(&m.name, "app").unwrap();
        assert_eq!(m.score, score);
        assert_eq!(m.positions, positions);
    }
}

#[test]
fn ranking_fruit_for_xyz_is_empty() {
    let mut matcher = nucleo::Matcher::default();
    assert!(rank_candidates(&mut matcher, &fruit(), "xyz").is_empty());
}

#[test]
fn ranking_for_the_empty_query_is_the_whole_list_in_order() {
    let mut matcher = nucleo::Matcher::default();
    let ranked = rank_candidates(&mut matcher, &fruit(), "");
    assert_eq!(ids(&ranked), vec![0, 1, 2]);
    for (i, m) in ranked.iter().enumerate() {
        assert_eq!(m.score, 0);
        assert!(m.positions.is_empty());
        assert_eq!(m.path, fruit()[i].path);
        assert_eq!(Some(m.name.clone()), fruit()[i].name);
    }
}

#[test]
fn every_ranked_entry_matches_and_every_match_is_ranked() {
    let mut matcher = nucleo::Matcher::default();
    let names = ["main.rs", "Makefile", "README.md", "mod.rs", "lib.rs", "Cargo.toml", "map.rs"];
    let candidates: Vec<Candidate> =
        names.iter().map(|n| candidate(&format!("./src/{}", n), n)).collect();
    for query in ["m", "rs", "ma", "md", "o", "zzz", ""] {
        let ranked = rank_candidates(&mut matcher, &candidates, query);
        for m in &ranked {
            assert!(reference(&m.name, query).is_some());
            assert_eq!(m.name, names[m.id].to_lowercase());
        }
        for (i, n) in names.iter().enumerate() {
            let listed = ranked.iter().filter(|m| m.id == i).count();
            let expected = if reference(&n.to_lowercase(), query).is_some() { 1 } else { 0 };
            assert_eq!(listed, expected);
        }
        for pair in ranked.windows(2) {
            assert!(ranks_before(&pair[0], &pair[1]));
        }
    }
}

#[test]
fn ranking_twice_gives_the_same_list() {
    let mut matcher = nucleo::Matcher::default();
    let first = rank_candidates(&mut matcher, &fruit(), "a");
    let second = rank_candidates(&mut matcher, &fruit(), "a");
    assert_eq!(first.len(), 3);
    assert_eq!(first, second);
    let mut fresh = nucleo::Matcher::default();
    assert_eq!(rank_candidates(&mut fresh, &fruit(), "a"), first);
}

#[test]
fn matcher_takes_any_text_within_the_limits() {
    let mut matcher = nucleo::Matcher::default();
    let mut long_name = String::new();
    for i in 0..70_000 {
        long_name.push(if i % 7 == 0 { 'a' } else { 'x' });
    }
    let mut long_query = String::new();
    for _ in 0..2048 {
        long_query.push('a');
    }
    let names = [
        "",
        "a",
        "e\u{301}cole.txt",
        "ÉCOLE.TXT",
        "naïve café.md",
        "日本語のファイル.txt",
        "👩‍👩‍👧‍👦 family.png",
        "İstanbul",
        "ǅ",
        "tab\there",
        long_name.as_str(),
    ];
    let queries = ["", "a", "e", "é", "e\u{301}", "txt", "ファ", "👩", "i̇", long_query.as_str()];
    for (id, name) in names.iter().enumerate() {
        for query in queries {
            let c = candidate("./x", name);
            let found = score_candidate(&mut matcher, &c, id, query);
            let lowered = name.to_lowercase();
            assert_eq!(found.is_some(), reference(&lowered, query).is_some());
            if let Some(m) = found {
                assert_eq!(m.name, lowered);
                assert_eq!((m.score, m.positions), reference(&lowered, query).unwrap());
            }
        }
    }
}

#[test]
fn candidate_without_a_name_never_matches() {
    let mut matcher = nucleo::Matcher::default();
    let nameless = Candidate { path: "..".to_string(), name: None };
    assert_eq!(score_candidate(&mut matcher, &nameless, 0, ""), None);
    assert_eq!(score_candidate(&mut matcher, &nameless, 0, "a"), None);
    let files = vec![nameless, candidate("../a.txt", "a.txt"), candidate("../b.txt", "b.txt")];
    let ranked = rank_candidates(&mut matcher, &files, "");
    assert_eq!(ids(&ranked), vec![1, 2]);
    let ranked = rank_candidates(&mut matcher, &files, "B");
    assert_eq!(ids(&ranked), vec![2]);
}

#[test]
fn capitals_in_the_query_find_nothing() {
    let mut matcher = nucleo::Matcher::default();
    let c = candidate("./xAyB", "xAyB");
    // the name is matched in lower case, the query as it stands
    assert_eq!(score_candidate(&mut matcher, &c, 0, "AB"), None);
    assert_eq!(score_candidate(&mut matcher, &c, 0, "aB"), None);
    assert_eq!(score_candidate(&mut matcher, &c, 0, "A"), None);
    // a query as long as the name is compared with case ignored
    let same_length = score_candidate(&mut matcher, &c, 0, "XAYB").unwrap();
    assert_eq!(
        (same_length.score, same_length.positions),
        reference("xayb", "XAYB").unwrap()
    );
    let found = score_candidate(&mut matcher, &c, 0, "ab").unwrap();
    assert_eq!(found.name, "xayb");
    assert_eq!(found.positions, vec![1, 3]);
    assert_eq!((found.score, found.positions), reference("xayb", "ab").unwrap());
    let whole = score_candidate(&mut matcher, &c, 0, "xayb").unwrap();
    assert_eq!(whole.positions, vec![0, 1, 2, 3]);
    for name in ["ABC", "aBc", "É_Ab", "AbCdEfGhIjKlMnOpQrStUvWxYz.TXT", "ǅA"] {
        for query in ["AB", "Ab", "aB", "ab", "B", "É", "ǅ", "Z"] {
            let c = candidate("./x", name);
            let found = score_candidate(&mut matcher, &c, 0, query);
            let expected = reference(&name.to_lowercase(), query);
            assert_eq!(found.map(|m| (m.score, m.positions)), expected);
        }
    }
}

#[test]
fn ranking_lowers_a_query_with_capitals() {
    let mut matcher = nucleo::Matcher::default();
    let files = vec![candidate("./xAyB", "xAyB"), candidate("./other", "other")];
    let ranked = rank_candidates(&mut matcher, &files, "AB");
    assert_eq!(ids(&ranked), vec![0]);
    assert_eq!(ranked, rank_candidates(&mut matcher, &files, "ab"));
}

#[test]
fn matcher_keeps_its_own_configuration() {
    let mut matcher = nucleo::Matcher::new(nucleo::Config::DEFAULT.match_paths());
    matcher.config.ignore_case = false;
    matcher.config.prefer_prefix = true;
    let before = matcher.config.clone();
    let c = candidate("./src/main.rs", "Main.rs");
    assert!(score_candidate(&mut matcher, &c, 0, "mr").is_some());
    assert_eq!(matcher.config, before);
    rank_candidates(&mut matcher, &fruit(), "a");
    assert_eq!(matcher.config, before);
}
