use searchr::config::{default_config_file, Config, IndexConfig, MainConfig, SelectError};
use searchr::ingest::{Action, EntryOutcome, IngestRun};
use searchr::merge::{merge_results, Hit};
use searchr::tokenize::{content_analyzer, tokenize, TOKENIZER_PREFIX};
use tantivy::tokenizer::Language;

fn hit(score: f32, name: &str) -> Hit {
    Hit {
        score: score.to_bits(),
        fname: name.to_owned(),
    }
}

fn names(hits: &[Hit]) -> Vec<&str> {
    hits.iter().map(|h| h.fname.as_str()).collect()
}

fn index(path: &str) -> IndexConfig {
    IndexConfig {
        index_path: path.to_owned(),
        language: Language::English,
        files: vec!["*.txt".to_owned()],
        case_sensitive: None,
        require_literal_separator: None,
        require_literal_leading_dot: None,
    }
}

fn config(names: &[&str], default: Option<&str>) -> Config {
    Config {
        main: MainConfig {
            default_index: default.map(|s| s.to_owned()),
        },
        indexes: names
            .iter()
            .map(|n| (n.to_string(), index(&format!("/idx/{}", n))))
            .collect(),
    }
}

fn terms(text: &str) -> Vec<String> {
    tokenize(text, Language::English)
        .into_iter()
        .map(|t| t.text)
        .collect()
}

#[test]
fn tokenize_lowercases_and_stems() {
    assert_eq!(terms("The Running dogs"), vec!["the", "run", "dog"]);
}

#[test]
fn tokenize_splits_on_punctuation() {
    assert_eq!(terms("hello, world!"), vec!["hello", "world"]);
}

#[test]
fn tokenize_keeps_positions() {
    let t = tokenize("alpha beta gamma", Language::English);
    let positions: Vec<usize> = t.iter().map(|t| t.position).collect();
    assert_eq!(positions, vec![0, 1, 2]);
}

#[test]
fn tokenize_drops_long_tokens() {
    let long = "x".repeat(40);
    assert_eq!(terms(&format!("short {} word", long)), vec!["short", "word"]);
    let kept = "y".repeat(39);
    assert_eq!(terms(&kept).len(), 1);
}

#[test]
fn tokenize_empty_text() {
    assert!(tokenize("", Language::English).is_empty());
}

#[test]
fn tokenize_twice_is_identical() {
    let text = "Indexing indexed indexes, quickly and QUICKLY.";
    assert_eq!(terms(text), terms(text));
}

#[test]
fn tokenize_follows_language() {
    assert_eq!(terms("running"), vec!["run"]);
    let french: Vec<String> = tokenize("running", Language::French)
        .into_iter()
        .map(|t| t.text)
        .collect();
    assert_ne!(french, vec!["run"]);
}

#[test]
fn content_analyzer_matches_tokenize() {
    let mut analyzer = content_analyzer(Language::English).into_inner();
    let mut stream = analyzer.token_stream("The Running dogs");
    let mut seen = Vec::new();
    while tantivy::tokenizer::TokenStream::advance(&mut stream) {
        seen.push(tantivy::tokenizer::TokenStream::token(&stream).text.clone());
    }
    assert_eq!(seen, terms("The Running dogs"));
    assert!(!TOKENIZER_PREFIX.is_empty());
}

#[test]
fn federated_search_returns_both_paths() {
    let a = vec![hit(0.3, "a.txt")];
    let b = vec![hit(0.5, "b.txt")];
    let r = merge_results(vec![a, b], 10);
    assert_eq!(names(&r), vec!["b.txt", "a.txt"]);
}

#[test]
fn merge_enforces_limit() {
    let a = vec![hit(0.9, "a1"), hit(0.4, "a2"), hit(0.1, "a3")];
    let b = vec![hit(0.7, "b1"), hit(0.2, "b2")];
    let r = merge_results(vec![a, b], 2);
    assert_eq!(names(&r), vec!["a1", "b1"]);
}

#[test]
fn merge_keeps_tie_order() {
    let a = vec![hit(0.5, "a1"), hit(0.5, "a2")];
    let b = vec![hit(0.5, "b1")];
    let r = merge_results(vec![a, b], 10);
    assert_eq!(names(&r), vec!["a1", "a2", "b1"]);
    let again = merge_results(
        vec![vec![hit(0.5, "a1"), hit(0.5, "a2")], vec![hit(0.5, "b1")]],
        10,
    );
    assert_eq!(names(&again), names(&r));
}

#[test]
fn merge_orders_unsorted_lists() {
    let a = vec![hit(0.1, "low"), hit(0.8, "high")];
    let r = merge_results(vec![a, Vec::new()], 5);
    assert_eq!(names(&r), vec!["high", "low"]);
}

#[test]
fn merge_of_nothing_is_empty() {
    assert!(merge_results(Vec::new(), 10).is_empty());
    assert!(merge_results(vec![vec![hit(1.0, "x")]], 0).is_empty());
}

#[test]
fn select_all_indexes() {
    let c = config(&["a", "b", "c"], None);
    assert_eq!(c.select_indexes(true, None).unwrap(), vec![0, 1, 2]);
}

#[test]
fn select_named_index() {
    let c = config(&["a", "b", "c"], Some("a"));
    assert_eq!(c.select_indexes(false, Some("c".to_owned())).unwrap(), vec![2]);
}

#[test]
fn select_default_index() {
    let c = config(&["a", "b"], Some("b"));
    assert_eq!(c.select_indexes(false, None).unwrap(), vec![1]);
}

#[test]
fn select_single_index_without_choice() {
    let c = config(&["only"], None);
    assert_eq!(c.select_indexes(false, None).unwrap(), vec![0]);
}

#[test]
fn select_fails_without_indexes() {
    let c = config(&[], Some("a"));
    assert!(matches!(c.select_indexes(true, None), Err(SelectError::NoIndexes)));
}

#[test]
fn select_fails_without_choice() {
    let c = config(&["a", "b"], None);
    assert!(matches!(
        c.select_indexes(false, None),
        Err(SelectError::NoIndexChosen)
    ));
}

#[test]
fn select_fails_on_unknown_name() {
    let c = config(&["a", "b"], None);
    match c.select_indexes(false, Some("zzz".to_owned())) {
        Err(SelectError::NotFound(k)) => assert_eq!(k, "zzz"),
        other => panic!("unexpected {:?}", other),
    }
}

#[test]
fn match_flags_defaults() {
    let f = index("/idx").match_flags();
    assert!(f.case_sensitive);
    assert!(!f.require_literal_separator);
    assert!(!f.require_literal_leading_dot);
}

#[test]
fn match_flags_explicit() {
    let mut c = index("/idx");
    c.case_sensitive = Some(false);
    c.require_literal_separator = Some(true);
    c.require_literal_leading_dot = Some(true);
    let f = c.match_flags();
    assert!(!f.case_sensitive);
    assert!(f.require_literal_separator);
    assert!(f.require_literal_leading_dot);
}

#[test]
fn config_file_under_xdg_dir() {
    assert_eq!(
        default_config_file(Some("/x".to_owned()), Some("/home/u".to_owned())),
        Some("/x/local-search/config.toml".to_owned())
    );
}

#[test]
fn config_file_under_home() {
    assert_eq!(
        default_config_file(None, Some("/home/u".to_owned())),
        Some("/home/u/.config/local-search/config.toml".to_owned())
    );
    assert_eq!(default_config_file(None, None), None);
}

fn p(s: &str) -> String {
    s.to_owned()
}

#[test]
fn reindex_skips_unreadable_file() {
    let mut run = IngestRun::new();
    assert_eq!(run.step(EntryOutcome::Read, &p("d/a.txt")), Action::Add);
    assert_eq!(run.step(EntryOutcome::ReadFailed, &p("d/b.txt")), Action::Warn);
    assert_eq!(run.step(EntryOutcome::Read, &p("d/c.txt")), Action::Add);
    assert_eq!(run.added(), 2);
    assert_eq!(run.warnings(), 1);
    assert_eq!(run.seen(), 3);
}

#[test]
fn reindex_adds_a_path_once() {
    let mut run = IngestRun::new();
    assert_eq!(run.step(EntryOutcome::Read, &p("d/a.txt")), Action::Add);
    assert!(run.is_added(&p("d/a.txt")));
    assert!(!run.is_added(&p("d/b.txt")));
    assert_eq!(run.step(EntryOutcome::Read, &p("d/a.txt")), Action::Skip);
    assert_eq!(run.added(), 1);
    assert_eq!(run.warnings(), 0);
}

#[test]
fn reindex_does_not_count_a_failed_add() {
    let mut run = IngestRun::new();
    assert_eq!(run.step(EntryOutcome::Read, &p("d/a.txt")), Action::Add);
    assert_eq!(run.step(EntryOutcome::Read, &p("d/b.txt")), Action::Add);
    assert_eq!(run.step(EntryOutcome::AddFailed, &p("d/b.txt")), Action::Warn);
    assert!(!run.is_added(&p("d/b.txt")));
    assert!(run.is_added(&p("d/a.txt")));
    assert_eq!(run.added(), 1);
    assert_eq!(run.warnings(), 1);
}

#[test]
fn reindex_of_nothing_counts_zero() {
    let run = IngestRun::new();
    assert_eq!(run.added(), 0);
    assert_eq!(run.seen(), 0);
}

#[test]
fn entry_actions() {
    let mut run = IngestRun::new();
    assert_eq!(run.step(EntryOutcome::PatternError, &p("x")), Action::Warn);
    assert_eq!(run.step(EntryOutcome::NotAFile, &p("d")), Action::Skip);
    assert_eq!(run.step(EntryOutcome::ReadFailed, &p("y")), Action::Warn);
    assert_eq!(run.step(EntryOutcome::Read, &p("z")), Action::Add);
    assert_eq!(run.added(), 1);
    assert_eq!(run.warnings(), 2);
}
