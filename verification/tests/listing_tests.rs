use homeworks::models::NewHomework;
use homeworks::models::NewSubject;
use homeworks::query::{ComposerConfig, EndBound, IdSequence, ListHomeworksParams, SearchMode};
use homeworks::store::Store;

fn no_params() -> ListHomeworksParams {
    ListHomeworksParams {
        search: None,
        start_due_date: None,
        end_due_date: None,
        done: None,
        subject_ids: None,
    }
}

fn fulltext() -> ComposerConfig {
    ComposerConfig { search_mode: SearchMode::FullText, end_bound: EndBound::AtLeast }
}

fn basic() -> ComposerConfig {
    ComposerConfig { search_mode: SearchMode::Basic, end_bound: EndBound::AtLeast }
}

fn new_homework(title: &str, subject_id: Option<i32>) -> NewHomework {
    NewHomework { due_date: None, title: title.to_string(), description: None, subject_id }
}

/// The store of the worked scenario: subject 1 "Math"; homeworks
/// 1 "Math worksheet" (subject 1), 2 "Essay draft" (no subject),
/// 3 "Math review" (subject 1).
fn scenario_store() -> Store {
    let mut store = Store::new();
    let s = store.create_subject(
        NewSubject { name: "Math".to_string(), hex_color: None },
        100,
    );
    assert_eq!(s.id, 1);
    let h1 = store.create_homework(new_homework("Math worksheet", Some(1)), 100);
    assert_eq!(h1.id, 1);
    let h2 = store.create_homework(new_homework("Essay draft", None), 101);
    assert_eq!(h2.id, 2);
    let h3 = store.create_homework(new_homework("Math review", Some(1)), 102);
    assert_eq!(h3.id, 3);
    store
}

fn ids_of(rows: &[homeworks::models::HomeworkWithSubject]) -> Vec<i32> {
    rows.iter().map(|r| r.homework.id).collect()
}

#[test]
fn search_math_returns_both_math_rows_in_id_order() {
    let store = scenario_store();
    let params = ListHomeworksParams { search: Some("math".to_string()), ..no_params() };
    let rows = store.list_homeworks(params, &fulltext());
    // Both rows are equally relevant; the tie-break is ascending id.
    assert_eq!(ids_of(&rows), vec![1, 3]);
    assert_eq!(rows[0].subject.as_ref().unwrap().name, "Math");
    assert_eq!(rows[1].subject.as_ref().unwrap().name, "Math");
}

#[test]
fn subject_ids_filter_returns_referencing_rows_ascending() {
    let store = scenario_store();
    let params = ListHomeworksParams {
        subject_ids: Some(IdSequence::new(vec![1])),
        ..no_params()
    };
    let rows = store.list_homeworks(params, &fulltext());
    assert_eq!(ids_of(&rows), vec![1, 3]);
}

#[test]
fn no_params_returns_all_rows_ascending_with_null_subject() {
    let store = scenario_store();
    let rows = store.list_homeworks(no_params(), &fulltext());
    assert_eq!(ids_of(&rows), vec![1, 2, 3]);
    assert!(rows[0].subject.is_some());
    assert!(rows[1].subject.is_none());
    assert!(rows[2].subject.is_some());
}

#[test]
fn basic_mode_matches_whole_string_case_insensitively() {
    let store = scenario_store();
    let params = ListHomeworksParams { search: Some("MATH WORK".to_string()), ..no_params() };
    let rows = store.list_homeworks(params, &basic());
    assert_eq!(ids_of(&rows), vec![1]);

    let params = ListHomeworksParams { search: Some("math".to_string()), ..no_params() };
    let rows = store.list_homeworks(params, &basic());
    assert_eq!(ids_of(&rows), vec![1, 3]);
}

#[test]
fn denser_matches_rank_first() {
    let mut store = Store::new();
    store.create_homework(new_homework("math", None), 0);
    store.create_homework(
        NewHomework {
            due_date: None,
            title: "math math".to_string(),
            description: Some("more math here".to_string()),
            subject_id: None,
        },
        0,
    );
    let params = ListHomeworksParams { search: Some("math".to_string()), ..no_params() };
    let rows = store.list_homeworks(params, &fulltext());
    // Row 2 has three match positions, row 1 has one.
    assert_eq!(ids_of(&rows), vec![2, 1]);
}

#[test]
fn all_search_terms_must_occur() {
    let store = scenario_store();
    let params = ListHomeworksParams { search: Some("math review".to_string()), ..no_params() };
    let rows = store.list_homeworks(params, &fulltext());
    assert_eq!(ids_of(&rows), vec![3]);
}

#[test]
fn empty_subject_ids_equals_absent_filter() {
    let store = scenario_store();
    let with_empty = ListHomeworksParams {
        subject_ids: Some(IdSequence::new(vec![])),
        ..no_params()
    };
    let a = store.list_homeworks(with_empty, &fulltext());
    let b = store.list_homeworks(no_params(), &fulltext());
    assert_eq!(a, b);
}

#[test]
fn blank_search_equals_absent_filter() {
    let store = scenario_store();
    for blank in ["", "   ", " \t\r\n "] {
        let with_blank = ListHomeworksParams {
            search: Some(blank.to_string()),
            ..no_params()
        };
        let a = store.list_homeworks(with_blank, &fulltext());
        let b = store.list_homeworks(no_params(), &fulltext());
        assert_eq!(a, b);

        let with_blank = ListHomeworksParams {
            search: Some(blank.to_string()),
            ..no_params()
        };
        let a = store.list_homeworks(with_blank, &basic());
        let b = store.list_homeworks(no_params(), &basic());
        assert_eq!(a, b);
    }
}

#[test]
fn same_filter_bundle_twice_gives_identical_listing() {
    let store = scenario_store();
    let mk = || ListHomeworksParams {
        search: Some("math".to_string()),
        subject_ids: Some(IdSequence::new(vec![1])),
        ..no_params()
    };
    let a = store.list_homeworks(mk(), &fulltext());
    let b = store.list_homeworks(mk(), &fulltext());
    assert_eq!(a, b);
}

#[test]
fn adding_a_filter_never_adds_rows() {
    let mut store = scenario_store();
    store.update_homework(
        1,
        homeworks::models::UpdatedHomework {
            due_date: None,
            title: None,
            description: None,
            subject_id: None,
            done: Some(true),
        },
        200,
    );
    let unfiltered = store.list_homeworks(no_params(), &fulltext());
    let filtered = store.list_homeworks(
        ListHomeworksParams { done: Some(true), ..no_params() },
        &fulltext(),
    );
    assert!(filtered.len() <= unfiltered.len());
    for row in &filtered {
        assert!(unfiltered.contains(row));
    }
    assert_eq!(ids_of(&filtered), vec![1]);
}

#[test]
fn due_date_bounds_exclude_undated_rows() {
    let mut store = Store::new();
    store.create_homework(
        NewHomework {
            due_date: Some(1000),
            title: "early".to_string(),
            description: None,
            subject_id: None,
        },
        0,
    );
    store.create_homework(
        NewHomework {
            due_date: Some(2000),
            title: "late".to_string(),
            description: None,
            subject_id: None,
        },
        0,
    );
    store.create_homework(new_homework("undated", None), 0);

    let rows = store.list_homeworks(
        ListHomeworksParams { start_due_date: Some(1500), ..no_params() },
        &fulltext(),
    );
    assert_eq!(ids_of(&rows), vec![2]);

    // The recorded reading of end_due_date is a second lower bound.
    let rows = store.list_homeworks(
        ListHomeworksParams { end_due_date: Some(1500), ..no_params() },
        &fulltext(),
    );
    assert_eq!(ids_of(&rows), vec![2]);

    // The conventional reading is an inclusive upper bound.
    let at_most = ComposerConfig { search_mode: SearchMode::FullText, end_bound: EndBound::AtMost };
    let rows = store.list_homeworks(
        ListHomeworksParams { end_due_date: Some(1500), ..no_params() },
        &at_most,
    );
    assert_eq!(ids_of(&rows), vec![1]);

    let rows = store.list_homeworks(
        ListHomeworksParams {
            start_due_date: Some(500),
            end_due_date: Some(1500),
            ..no_params()
        },
        &at_most,
    );
    assert_eq!(ids_of(&rows), vec![1]);
}

#[test]
fn deleted_subject_leaves_row_listed_with_null_subject() {
    let mut store = scenario_store();
    assert!(store.delete_subject(1));
    let rows = store.list_homeworks(no_params(), &fulltext());
    assert_eq!(ids_of(&rows), vec![1, 2, 3]);
    assert!(rows.iter().all(|r| r.subject.is_none()));
}

#[test]
fn empty_store_lists_nothing() {
    let store = Store::new();
    let rows = store.list_homeworks(no_params(), &fulltext());
    assert!(rows.is_empty());
    let params = ListHomeworksParams { search: Some("anything".to_string()), ..no_params() };
    assert!(store.list_homeworks(params, &fulltext()).is_empty());
}

#[test]
fn extreme_due_dates_filter_correctly() {
    let mut store = Store::new();
    store.create_homework(
        NewHomework {
            due_date: Some(i64::MIN),
            title: "earliest".to_string(),
            description: None,
            subject_id: None,
        },
        0,
    );
    store.create_homework(
        NewHomework {
            due_date: Some(i64::MAX),
            title: "latest".to_string(),
            description: None,
            subject_id: None,
        },
        0,
    );
    let rows = store.list_homeworks(
        ListHomeworksParams { start_due_date: Some(0), ..no_params() },
        &fulltext(),
    );
    assert_eq!(ids_of(&rows), vec![2]);
    let rows = store.list_homeworks(
        ListHomeworksParams { start_due_date: Some(i64::MIN), ..no_params() },
        &fulltext(),
    );
    assert_eq!(ids_of(&rows), vec![1, 2]);
}

#[test]
fn search_with_special_characters_is_literal() {
    let mut store = Store::new();
    store.create_homework(new_homework("50% & done", None), 0);
    store.create_homework(new_homework("plain", None), 0);
    // Punctuation only separates terms; it cannot act as query syntax.
    let params = ListHomeworksParams { search: Some("50 & done!".to_string()), ..no_params() };
    let rows = store.list_homeworks(params, &fulltext());
    assert_eq!(ids_of(&rows), vec![1]);
}
