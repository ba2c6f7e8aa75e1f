use homeworks::query::{
    compose, ComposerConfig, EndBound, IdSequence, ListHomeworksParams, SearchMode,
};
use homeworks::text::tokenize;

fn chars(s: &str) -> Vec<char> {
    s.chars().collect()
}

#[test]
fn parse_accepts_comma_separated_ids() {
    let ids = IdSequence::parse("1,2,3").expect("should parse").ids();
    assert_eq!(ids, vec![1, 2, 3]);
    let ids = IdSequence::parse("42").expect("should parse").ids();
    assert_eq!(ids, vec![42]);
    let ids = IdSequence::parse("+5,007").expect("should parse").ids();
    assert_eq!(ids, vec![5, 7]);
    let ids = IdSequence::parse("4294967295").expect("should parse").ids();
    assert_eq!(ids, vec![-1]);
}

#[test]
fn parse_rejects_malformed_lists() {
    assert!(IdSequence::parse("").is_none());
    assert!(IdSequence::parse("1,,2").is_none());
    assert!(IdSequence::parse("1,2,").is_none());
    assert!(IdSequence::parse("a").is_none());
    assert!(IdSequence::parse(" 1").is_none());
    assert!(IdSequence::parse("-1").is_none());
    assert!(IdSequence::parse("1.5").is_none());
    assert!(IdSequence::parse("4294967296").is_none());
    assert!(IdSequence::parse("+").is_none());
}

#[test]
fn id_sequence_reports_emptiness() {
    assert!(IdSequence::new(vec![]).is_empty());
    assert!(!IdSequence::new(vec![3]).is_empty());
}

#[test]
fn tokenize_lowercases_and_splits_on_separators() {
    let terms = tokenize("Hello, World!");
    assert_eq!(terms, vec![chars("hello"), chars("world")]);
    let terms = tokenize("  C3PO--r2d2 ");
    assert_eq!(terms, vec![chars("c3po"), chars("r2d2")]);
    assert!(tokenize("").is_empty());
    assert!(tokenize(" \t\n").is_empty());
    assert!(tokenize("!!! ???").is_empty());
}

fn no_params() -> ListHomeworksParams {
    ListHomeworksParams {
        search: None,
        start_due_date: None,
        end_due_date: None,
        done: None,
        subject_ids: None,
    }
}

#[test]
fn compose_normalises_degenerate_filters() {
    let config = ComposerConfig { search_mode: SearchMode::FullText, end_bound: EndBound::AtLeast };
    let plan = compose(
        ListHomeworksParams {
            search: Some("  !!  ".to_string()),
            subject_ids: Some(IdSequence::new(vec![])),
            ..no_params()
        },
        &config,
    );
    assert!(plan.terms.is_none());
    assert!(plan.subject_ids.is_none());
    assert!(!plan.ranked);
    assert!(!plan.end_is_upper);
}

#[test]
fn compose_keeps_usable_filters() {
    let config = ComposerConfig { search_mode: SearchMode::FullText, end_bound: EndBound::AtMost };
    let plan = compose(
        ListHomeworksParams {
            search: Some("Group Theory".to_string()),
            start_due_date: Some(11),
            end_due_date: Some(22),
            done: Some(false),
            subject_ids: Some(IdSequence::new(vec![4, 2])),
        },
        &config,
    );
    assert_eq!(plan.terms, Some(vec![chars("group"), chars("theory")]));
    assert_eq!(plan.start_due, Some(11));
    assert_eq!(plan.end_due, Some(22));
    assert!(plan.end_is_upper);
    assert_eq!(plan.done, Some(false));
    assert_eq!(plan.subject_ids, Some(vec![4, 2]));
    assert!(plan.ranked);
}

#[test]
fn basic_mode_search_is_one_literal_term_and_unranked() {
    let config = ComposerConfig { search_mode: SearchMode::Basic, end_bound: EndBound::AtLeast };
    let plan = compose(
        ListHomeworksParams { search: Some("Group Theory".to_string()), ..no_params() },
        &config,
    );
    assert_eq!(plan.terms, Some(vec![chars("group theory")]));
    assert!(!plan.ranked);

    let plan = compose(
        ListHomeworksParams { search: Some("   ".to_string()), ..no_params() },
        &config,
    );
    assert!(plan.terms.is_none());
}
