use homeworks::calendar::calendar_entries;
use homeworks::models::{Homework, Subject};

fn homework(id: i32, title: &str, due: Option<i64>, subject_id: Option<i32>) -> Homework {
    Homework {
        id,
        created_at: 0,
        updated_at: 0,
        due_date: due,
        title: title.to_string(),
        description: format!("notes for {title}"),
        done: false,
        subject_id,
    }
}

fn subject(id: i32, name: &str) -> Subject {
    Subject { id, created_at: 0, updated_at: 0, name: name.to_string(), hex_color: None }
}

#[test]
fn one_event_per_dated_homework() {
    let homeworks = vec![
        homework(1, "worksheet", Some(5000), Some(1)),
        homework(2, "undated", None, Some(1)),
        homework(3, "essay", Some(9000), None),
    ];
    let subjects = vec![subject(1, "Math")];
    let entries = calendar_entries(&homeworks, &subjects);
    assert_eq!(entries.len(), 2);

    assert_eq!(entries[0].summary, "worksheet - Math");
    assert_eq!(entries[0].description, "notes for worksheet");
    assert_eq!(entries[0].starts, 5000);
    assert_eq!(entries[0].ends, 5000 + 3600);

    assert_eq!(entries[1].summary, "essay");
    assert_eq!(entries[1].starts, 9000);
    assert_eq!(entries[1].ends, 9000 + 3600);
}

#[test]
fn deleted_subject_leaves_summary_bare() {
    let homeworks = vec![homework(1, "orphaned", Some(100), Some(77))];
    let entries = calendar_entries(&homeworks, &[].to_vec());
    assert_eq!(entries.len(), 1);
    assert_eq!(entries[0].summary, "orphaned");
}

#[test]
fn no_dated_homeworks_yields_empty_calendar() {
    let homeworks = vec![homework(1, "a", None, None)];
    let entries = calendar_entries(&homeworks, &[subject(1, "X")].to_vec());
    assert!(entries.is_empty());
}
