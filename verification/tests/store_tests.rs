use homeworks::models::{NewHomework, NewSubject, UpdatedHomework, UpdatedSubject};
use homeworks::store::Store;

fn plain_homework(title: &str) -> NewHomework {
    NewHomework { due_date: None, title: title.to_string(), description: None, subject_id: None }
}

#[test]
fn create_homework_fills_defaults() {
    let mut store = Store::new();
    let h = store.create_homework(plain_homework("read chapter"), 42);
    assert_eq!(h.id, 1);
    assert_eq!(h.created_at, 42);
    assert_eq!(h.updated_at, 42);
    assert_eq!(h.title, "read chapter");
    assert_eq!(h.description, "");
    assert!(!h.done);
    assert_eq!(h.due_date, None);
    assert_eq!(h.subject_id, None);

    let h2 = store.create_homework(
        NewHomework {
            due_date: Some(7),
            title: "essay".to_string(),
            description: Some("two pages".to_string()),
            subject_id: Some(9),
        },
        43,
    );
    assert_eq!(h2.id, 2);
    assert_eq!(h2.description, "two pages");
    assert_eq!(h2.due_date, Some(7));
    assert_eq!(h2.subject_id, Some(9));
}

#[test]
fn create_subject() {
    let mut store = Store::new();
    let name = "a test subject";
    let created = store.create_subject(
        NewSubject { name: name.to_string(), hex_color: None },
        7,
    );
    let id = created.id;
    let found = store.find_subject(id).expect("subject should exist");
    assert_eq!(found.name, name);
}

#[test]
fn get_homework_resolves_subject() {
    let mut store = Store::new();
    let s = store.create_subject(
        NewSubject { name: "History".to_string(), hex_color: Some("#abc".to_string()) },
        0,
    );
    let h = store.create_homework(
        NewHomework {
            due_date: None,
            title: "dates".to_string(),
            description: None,
            subject_id: Some(s.id),
        },
        0,
    );
    let row = store.get_homework(h.id).expect("homework should exist");
    assert_eq!(row.homework.title, "dates");
    assert_eq!(row.subject.unwrap().name, "History");
    assert!(store.get_homework(999).is_none());
}

#[test]
fn get_homework_with_null_subject_reports_none() {
    let mut store = Store::new();
    let h = store.create_homework(plain_homework("solo"), 0);
    let row = store.get_homework(h.id).unwrap();
    assert!(row.subject.is_none());
}

#[test]
fn update_homework_touches_only_present_fields() {
    let mut store = Store::new();
    store.create_homework(
        NewHomework {
            due_date: Some(5),
            title: "old title".to_string(),
            description: Some("keep me".to_string()),
            subject_id: None,
        },
        10,
    );
    let updated = store
        .update_homework(
            1,
            UpdatedHomework {
                due_date: None,
                title: Some("new title".to_string()),
                description: None,
                subject_id: None,
                done: Some(true),
            },
            20,
        )
        .expect("homework should exist");
    assert_eq!(updated.title, "new title");
    assert_eq!(updated.description, "keep me");
    assert_eq!(updated.due_date, Some(5));
    assert!(updated.done);
    assert_eq!(updated.created_at, 10);
    assert_eq!(updated.updated_at, 20);

    let fetched = store.get_homework(1).unwrap();
    assert_eq!(fetched.homework, updated);
}

#[test]
fn update_missing_homework_reports_none() {
    let mut store = Store::new();
    let r = store.update_homework(
        1,
        UpdatedHomework {
            due_date: None,
            title: None,
            description: None,
            subject_id: None,
            done: None,
        },
        0,
    );
    assert!(r.is_none());
}

#[test]
fn delete_homework_is_at_most_once() {
    let mut store = Store::new();
    store.create_homework(plain_homework("a"), 0);
    store.create_homework(plain_homework("b"), 0);
    assert!(store.delete_homework(1));
    assert!(!store.delete_homework(1));
    assert!(store.get_homework(1).is_none());
    assert!(store.get_homework(2).is_some());
}

#[test]
fn ids_are_not_reused_after_delete() {
    let mut store = Store::new();
    store.create_homework(plain_homework("a"), 0);
    assert!(store.delete_homework(1));
    let h = store.create_homework(plain_homework("b"), 0);
    assert_eq!(h.id, 2);
}

#[test]
fn list_subjects_in_insertion_order() {
    let mut store = Store::new();
    store.create_subject(NewSubject { name: "A".to_string(), hex_color: None }, 0);
    store.create_subject(NewSubject { name: "B".to_string(), hex_color: None }, 0);
    let subjects = store.list_subjects();
    let names: Vec<&str> = subjects.iter().map(|s| s.name.as_str()).collect();
    assert_eq!(names, vec!["A", "B"]);
}

#[test]
fn update_subject_touches_only_present_fields() {
    let mut store = Store::new();
    store.create_subject(
        NewSubject { name: "Arts".to_string(), hex_color: Some("#fff".to_string()) },
        1,
    );
    let updated = store
        .update_subject(
            1,
            UpdatedSubject { name: Some("Fine Arts".to_string()), hex_color: None },
            2,
        )
        .expect("subject should exist");
    assert_eq!(updated.name, "Fine Arts");
    assert_eq!(updated.hex_color, Some("#fff".to_string()));
    assert_eq!(updated.created_at, 1);
    assert_eq!(updated.updated_at, 2);

    assert!(store.update_subject(99, UpdatedSubject { name: None, hex_color: None }, 3).is_none());
}

#[test]
fn delete_subject_is_at_most_once() {
    let mut store = Store::new();
    store.create_subject(NewSubject { name: "X".to_string(), hex_color: None }, 0);
    assert!(store.delete_subject(1));
    assert!(!store.delete_subject(1));
    assert!(store.find_subject(1).is_none());
}
