//! The two persisted entities, the payloads that create and update them,
//! and the row shape that listings produce.
//!
//! Timestamps (`created_at`, `updated_at`, `due_date`) are seconds since the
//! Unix epoch; the composer only ever compares them, so any fixed unit works.

use vstd::prelude::*;

verus! {

/// Mathematical model of a homework row.
pub ghost struct HomeworkView {
    pub id: int,
    pub created_at: int,
    pub updated_at: int,
    pub due_date: Option<int>,
    pub title: Seq<char>,
    pub description: Seq<char>,
    pub done: bool,
    pub subject_id: Option<int>,
}

/// Mathematical model of a subject row.
pub ghost struct SubjectView {
    pub id: int,
    pub created_at: int,
    pub updated_at: int,
    pub name: Seq<char>,
    pub hex_color: Option<Seq<char>>,
}

/// Mathematical model of one listing result row.
pub ghost struct HomeworkWithSubjectView {
    pub homework: HomeworkView,
    pub subject: Option<SubjectView>,
}

/// A homework assignment. `subject_id`, when present, names a subject row;
/// the store does not enforce that the subject still exists.
#[derive(Debug, PartialEq)]
pub struct Homework {
    pub id: i32,
    pub created_at: i64,
    pub updated_at: i64,
    pub due_date: Option<i64>,
    pub title: String,
    pub description: String,
    pub done: bool,
    pub subject_id: Option<i32>,
}

/// A subject (school discipline) that homeworks can reference.
/// `hex_color` is an opaque UI tag; nothing here validates it.
#[derive(Debug, PartialEq)]
pub struct Subject {
    pub id: i32,
    pub created_at: i64,
    pub updated_at: i64,
    pub name: String,
    pub hex_color: Option<String>,
}

/// One listing result row: a homework paired with its resolved subject, or
/// `None` when `subject_id` is null or the subject has been deleted.
#[derive(Debug, PartialEq)]
pub struct HomeworkWithSubject {
    pub homework: Homework,
    pub subject: Option<Subject>,
}

/// A subject paired with the homeworks that reference it.
#[derive(Debug, PartialEq)]
pub struct SubjectWithHomeworks {
    pub subject: Subject,
    pub homeworks: Vec<Homework>,
}

/// Payload for creating a homework. A missing `description` defaults to the
/// empty string; `done` starts false; `id` and the timestamps are assigned
/// by the store.
#[derive(Debug, PartialEq)]
pub struct NewHomework {
    pub due_date: Option<i64>,
    pub title: String,
    pub description: Option<String>,
    pub subject_id: Option<i32>,
}

/// Field-level partial update of a homework: absent fields are left
/// untouched.
#[derive(Debug, PartialEq)]
pub struct UpdatedHomework {
    pub due_date: Option<i64>,
    pub title: Option<String>,
    pub description: Option<String>,
    pub subject_id: Option<i32>,
    pub done: Option<bool>,
}

/// Payload for creating a subject.
#[derive(Debug, PartialEq)]
pub struct NewSubject {
    pub name: String,
    pub hex_color: Option<String>,
}

/// Field-level partial update of a subject: absent fields are left
/// untouched.
#[derive(Debug, PartialEq)]
pub struct UpdatedSubject {
    pub name: Option<String>,
    pub hex_color: Option<String>,
}

pub open spec fn opt_int_of(d: Option<i64>) -> Option<int> {
    match d {
        Some(v) => Some(v as int),
        None => None,
    }
}

pub open spec fn opt_id_of(d: Option<i32>) -> Option<int> {
    match d {
        Some(v) => Some(v as int),
        None => None,
    }
}

pub open spec fn opt_text_of(s: Option<String>) -> Option<Seq<char>> {
    match s {
        Some(v) => Some(v@),
        None => None,
    }
}

impl View for Homework {
    type V = HomeworkView;

    open spec fn view(&self) -> HomeworkView {
        HomeworkView {
            id: self.id as int,
            created_at: self.created_at as int,
            updated_at: self.updated_at as int,
            due_date: opt_int_of(self.due_date),
            title: self.title@,
            description: self.description@,
            done: self.done,
            subject_id: opt_id_of(self.subject_id),
        }
    }
}

impl DeepView for Homework {
    type V = HomeworkView;

    open spec fn deep_view(&self) -> HomeworkView {
        self.view()
    }
}

impl View for Subject {
    type V = SubjectView;

    open spec fn view(&self) -> SubjectView {
        SubjectView {
            id: self.id as int,
            created_at: self.created_at as int,
            updated_at: self.updated_at as int,
            name: self.name@,
            hex_color: opt_text_of(self.hex_color),
        }
    }
}

impl DeepView for Subject {
    type V = SubjectView;

    open spec fn deep_view(&self) -> SubjectView {
        self.view()
    }
}

impl View for HomeworkWithSubject {
    type V = HomeworkWithSubjectView;

    open spec fn view(&self) -> HomeworkWithSubjectView {
        HomeworkWithSubjectView {
            homework: self.homework@,
            subject: match self.subject {
                Some(s) => Some(s@),
                None => None,
            },
        }
    }
}

impl DeepView for HomeworkWithSubject {
    type V = HomeworkWithSubjectView;

    open spec fn deep_view(&self) -> HomeworkWithSubjectView {
        self.view()
    }
}

impl Clone for Homework {
    fn clone(&self) -> (r: Self)
        ensures
            r == *self,
    {
        Homework {
            id: self.id,
            created_at: self.created_at,
            updated_at: self.updated_at,
            due_date: self.due_date,
            title: self.title.clone(),
            description: self.description.clone(),
            done: self.done,
            subject_id: self.subject_id,
        }
    }
}

impl Clone for Subject {
    fn clone(&self) -> (r: Self)
        ensures
            r == *self,
    {
        Subject {
            id: self.id,
            created_at: self.created_at,
            updated_at: self.updated_at,
            name: self.name.clone(),
            hex_color: clone_opt_string(&self.hex_color),
        }
    }
}

impl Clone for HomeworkWithSubject {
    fn clone(&self) -> (r: Self)
        ensures
            r == *self,
    {
        HomeworkWithSubject {
            homework: self.homework.clone(),
            subject: match &self.subject {
                Some(s) => Some(s.clone()),
                None => None,
            },
        }
    }
}

pub(crate) fn clone_opt_string(s: &Option<String>) -> (r: Option<String>)
    ensures
        r == *s,
{
    match s {
        Some(v) => Some(v.clone()),
        None => None,
    }
}

} // verus!
