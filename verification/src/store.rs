//! The in-memory record store: homeworks and subjects with
//! server-assigned, strictly increasing ids, field-level partial updates,
//! and at-most-once deletes.
//!
//! The store deliberately does not enforce that a homework's `subject_id`
//! references a live subject: deleting a subject leaves referencing
//! homeworks in place, and listings then resolve their subject to `None`.

use vstd::prelude::*;

use crate::listing::{ids_ascending, matching_rows, project_row, rows_sorted, run_query};
use crate::models::{
    opt_id_of, opt_int_of, Homework, HomeworkView, HomeworkWithSubject, NewHomework, NewSubject,
    Subject, SubjectView, UpdatedHomework, UpdatedSubject,
};
use crate::query::{compose, spec_compose, ComposerConfig, ListHomeworksParams};

verus! {

/// Mathematical model of the store.
pub ghost struct StoreView {
    pub homeworks: Seq<HomeworkView>,
    pub subjects: Seq<SubjectView>,
    pub next_homework_id: int,
    pub next_subject_id: int,
}

/// Are the subject ids strictly ascending?
pub open spec fn subject_ids_ascending(subs: Seq<SubjectView>) -> bool {
    forall|i: int, j: int|
        #![trigger subs[i], subs[j]]
        0 <= i < j < subs.len() ==> subs[i].id < subs[j].id
}

/// The store's well-formedness: ids are strictly ascending (so unique, in
/// insertion order), below the respective next free id, and ids start
/// from one.
pub open spec fn store_inv(s: StoreView) -> bool {
    &&& ids_ascending(s.homeworks)
    &&& subject_ids_ascending(s.subjects)
    &&& forall|i: int|
        0 <= i < s.homeworks.len() ==> (#[trigger] s.homeworks[i]).id < s.next_homework_id
    &&& forall|i: int|
        0 <= i < s.subjects.len() ==> (#[trigger] s.subjects[i]).id < s.next_subject_id
    &&& 1 <= s.next_homework_id
    &&& 1 <= s.next_subject_id
}

/// A homework after a field-level partial update: present fields replace,
/// absent fields keep, and `updated_at` is stamped.
pub open spec fn updated_homework_view(
    h: HomeworkView,
    u: UpdatedHomework,
    now: int,
) -> HomeworkView {
    HomeworkView {
        id: h.id,
        created_at: h.created_at,
        updated_at: now,
        due_date: match u.due_date {
            Some(d) => Some(d as int),
            None => h.due_date,
        },
        title: match u.title {
            Some(t) => t@,
            None => h.title,
        },
        description: match u.description {
            Some(d) => d@,
            None => h.description,
        },
        done: match u.done {
            Some(b) => b,
            None => h.done,
        },
        subject_id: match u.subject_id {
            Some(s) => Some(s as int),
            None => h.subject_id,
        },
    }
}

/// A subject after a field-level partial update.
pub open spec fn updated_subject_view(s: SubjectView, u: UpdatedSubject, now: int) -> SubjectView {
    SubjectView {
        id: s.id,
        created_at: s.created_at,
        updated_at: now,
        name: match u.name {
            Some(n) => n@,
            None => s.name,
        },
        hex_color: match u.hex_color {
            Some(c) => Some(c@),
            None => s.hex_color,
        },
    }
}

/// The homework a creation request yields, under the given id and time:
/// a missing description defaults to empty, and `done` starts false.
pub open spec fn created_homework_view(n: NewHomework, id: int, now: int) -> HomeworkView {
    HomeworkView {
        id: id,
        created_at: now,
        updated_at: now,
        due_date: opt_int_of(n.due_date),
        title: n.title@,
        description: match n.description {
            Some(d) => d@,
            None => Seq::<char>::empty(),
        },
        done: false,
        subject_id: opt_id_of(n.subject_id),
    }
}

/// The subject a creation request yields.
pub open spec fn created_subject_view(n: NewSubject, id: int, now: int) -> SubjectView {
    SubjectView {
        id: id,
        created_at: now,
        updated_at: now,
        name: n.name@,
        hex_color: match n.hex_color {
            Some(c) => Some(c@),
            None => None,
        },
    }
}

/// The record store. Creation assigns ids in increasing order, so the
/// stored sequences double as insertion order; timestamps are supplied by
/// the caller (`now`), keeping every operation deterministic.
pub struct Store {
    homeworks: Vec<Homework>,
    subjects: Vec<Subject>,
    next_homework_id: i32,
    next_subject_id: i32,
}

impl View for Store {
    type V = StoreView;

    closed spec fn view(&self) -> StoreView {
        StoreView {
            homeworks: self.homeworks.deep_view(),
            subjects: self.subjects.deep_view(),
            next_homework_id: self.next_homework_id as int,
            next_subject_id: self.next_subject_id as int,
        }
    }
}

impl Store {
    /// An empty store; ids start at one.
    pub fn new() -> (s: Store)
        ensures
            store_inv(s@),
            s@.homeworks.len() == 0,
            s@.subjects.len() == 0,
            s@.next_homework_id == 1,
            s@.next_subject_id == 1,
    {
        let s = Store {
            homeworks: Vec::new(),
            subjects: Vec::new(),
            next_homework_id: 1,
            next_subject_id: 1,
        };
        proof {
            assert(s@.homeworks =~= Seq::<HomeworkView>::empty());
            assert(s@.subjects =~= Seq::<SubjectView>::empty());
        }
        s
    }

    /// Creates a homework: assigns the next id, stamps both timestamps
    /// with `now`, defaults a missing description to empty and `done` to
    /// false, and returns the stored row.
    pub fn create_homework(&mut self, new: NewHomework, now: i64) -> (h: Homework)
        requires
            store_inv(old(self)@),
            old(self)@.next_homework_id < i32::MAX,
        ensures
            store_inv(final(self)@),
            h@ == created_homework_view(new, old(self)@.next_homework_id, now as int),
            final(self)@.homeworks == old(self)@.homeworks.push(h@),
            final(self)@.subjects == old(self)@.subjects,
            final(self)@.next_homework_id == old(self)@.next_homework_id + 1,
            final(self)@.next_subject_id == old(self)@.next_subject_id,
    {
        let row = Homework {
            id: self.next_homework_id,
            created_at: now,
            updated_at: now,
            due_date: new.due_date,
            title: new.title,
            description: match new.description {
                Some(d) => d,
                None => String::new(),
            },
            done: false,
            subject_id: new.subject_id,
        };
        let result = row.clone();
        let ghost old_hws = self.homeworks.deep_view();
        self.homeworks.push(row);
        self.next_homework_id = self.next_homework_id + 1;
        proof {
            assert(self@.homeworks =~= old_hws.push(result@));
        }
        result
    }

    /// Looks a homework up by id, paired with its resolved subject (or
    /// none, per left-outer-join semantics). `None` exactly when no such
    /// homework exists.
    pub fn get_homework(&self, id: i32) -> (r: Option<HomeworkWithSubject>)
        ensures
            r is Some <==> exists|k: int|
                0 <= k < self@.homeworks.len() && (#[trigger] self@.homeworks[k]).id == id as int,
            match r {
                Some(row) => exists|k: int|
                    0 <= k < self@.homeworks.len() && (#[trigger] self@.homeworks[k]).id
                        == id as int && row@ == project_row(self@.subjects, self@.homeworks[k]),
                None => true,
            },
    {
        let ghost hws = self@.homeworks;
        let n = self.homeworks.len();
        let mut i: usize = 0;
        while i < n
            invariant
                i <= n,
                n == self.homeworks@.len(),
                hws == self@.homeworks,
                hws == self.homeworks.deep_view(),
                forall|k: int| 0 <= k < i ==> (#[trigger] hws[k]).id != id as int,
            decreases n - i,
        {
            proof {
                assert(hws[i as int] == self.homeworks@[i as int]@);
            }
            if self.homeworks[i].id == id {
                let h = self.homeworks[i].clone();
                let subject = match h.subject_id {
                    Some(sid) => crate::listing::lookup_subject(&self.subjects, sid),
                    None => None,
                };
                let row = HomeworkWithSubject { homework: h, subject };
                proof {
                    assert(row@ == project_row(self@.subjects, hws[i as int]));
                }
                return Some(row);
            }
            i += 1;
        }
        None
    }

    /// Applies a field-level partial update to the homework with the
    /// given id and stamps `updated_at`; returns the updated row, or
    /// `None` (leaving the store unchanged) when no such homework exists.
    pub fn update_homework(&mut self, id: i32, upd: UpdatedHomework, now: i64) -> (r: Option<
        Homework,
    >)
        requires
            store_inv(old(self)@),
        ensures
            store_inv(final(self)@),
            final(self)@.subjects == old(self)@.subjects,
            final(self)@.next_homework_id == old(self)@.next_homework_id,
            final(self)@.next_subject_id == old(self)@.next_subject_id,
            r is Some <==> exists|k: int|
                0 <= k < old(self)@.homeworks.len() && (#[trigger] old(
                    self,
                )@.homeworks[k]).id == id as int,
            match r {
                Some(h) => exists|k: int|
                    0 <= k < old(self)@.homeworks.len() && (#[trigger] old(
                        self,
                    )@.homeworks[k]).id == id as int && h@ == updated_homework_view(
                        old(self)@.homeworks[k],
                        upd,
                        now as int,
                    ) && final(self)@.homeworks == old(self)@.homeworks.update(k, h@),
                None => final(self)@ == old(self)@,
            },
    {
        let ghost hws = old(self)@.homeworks;
        let n = self.homeworks.len();
        let mut i: usize = 0;
        while i < n
            invariant
                i <= n,
                n == self.homeworks@.len(),
                hws == self.homeworks.deep_view(),
                self@ == old(self)@,
                store_inv(old(self)@),
                hws == old(self)@.homeworks,
                forall|k: int| 0 <= k < i ==> (#[trigger] hws[k]).id != id as int,
            decreases n - i,
        {
            proof {
                assert(hws[i as int] == self.homeworks@[i as int]@);
            }
            if self.homeworks[i].id == id {
                let ghost updv = upd;
                let cur = &self.homeworks[i];
                let updated = Homework {
                    id: cur.id,
                    created_at: cur.created_at,
                    updated_at: now,
                    due_date: match upd.due_date {
                        Some(d) => Some(d),
                        None => cur.due_date,
                    },
                    title: match upd.title {
                        Some(t) => t,
                        None => cur.title.clone(),
                    },
                    description: match upd.description {
                        Some(d) => d,
                        None => cur.description.clone(),
                    },
                    done: match upd.done {
                        Some(b) => b,
                        None => cur.done,
                    },
                    subject_id: match upd.subject_id {
                        Some(s) => Some(s),
                        None => cur.subject_id,
                    },
                };
                proof {
                    assert(updated@ == updated_homework_view(hws[i as int], updv, now as int));
                }
                let result = updated.clone();
                self.homeworks[i] = updated;
                proof {
                    assert(self@.homeworks =~= hws.update(i as int, result@));
                    assert forall|a: int, b: int|
                        #![trigger self@.homeworks[a], self@.homeworks[b]]
                        0 <= a < b < self@.homeworks.len() implies self@.homeworks[a].id
                        < self@.homeworks[b].id by {
                        assert(hws[a].id < hws[b].id);
                    }
                    assert forall|k: int| 0 <= k < self@.homeworks.len() implies (
                    #[trigger] self@.homeworks[k]).id < self@.next_homework_id by {
                        assert(hws[k].id < old(self)@.next_homework_id);
                    }
                }
                return Some(result);
            }
            i += 1;
        }
        None
    }

    /// Deletes the homework with the given id; reports whether one was
    /// deleted, so a delete of a nonexistent id is visible to the caller.
    pub fn delete_homework(&mut self, id: i32) -> (deleted: bool)
        requires
            store_inv(old(self)@),
        ensures
            store_inv(final(self)@),
            final(self)@.subjects == old(self)@.subjects,
            final(self)@.next_homework_id == old(self)@.next_homework_id,
            final(self)@.next_subject_id == old(self)@.next_subject_id,
            deleted <==> exists|k: int|
                0 <= k < old(self)@.homeworks.len() && (#[trigger] old(
                    self,
                )@.homeworks[k]).id == id as int,
            deleted ==> exists|k: int|
                0 <= k < old(self)@.homeworks.len() && (#[trigger] old(
                    self,
                )@.homeworks[k]).id == id as int && final(self)@.homeworks == old(
                    self,
                )@.homeworks.remove(k),
            !deleted ==> final(self)@ == old(self)@,
    {
        let ghost hws = old(self)@.homeworks;
        let n = self.homeworks.len();
        let mut i: usize = 0;
        while i < n
            invariant
                i <= n,
                n == self.homeworks@.len(),
                hws == self.homeworks.deep_view(),
                self@ == old(self)@,
                store_inv(old(self)@),
                hws == old(self)@.homeworks,
                forall|k: int| 0 <= k < i ==> (#[trigger] hws[k]).id != id as int,
            decreases n - i,
        {
            proof {
                assert(hws[i as int] == self.homeworks@[i as int]@);
            }
            if self.homeworks[i].id == id {
                self.homeworks.remove(i);
                proof {
                    assert(self@.homeworks =~= hws.remove(i as int));
                    assert forall|a: int, b: int|
                        #![trigger self@.homeworks[a], self@.homeworks[b]]
                        0 <= a < b < self@.homeworks.len() implies self@.homeworks[a].id
                        < self@.homeworks[b].id by {
                        let a0: int = if a < i { a } else { a + 1 };
                        let b0: int = if b < i { b } else { b + 1 };
                        assert(hws[a0].id < hws[b0].id);
                    }
                    assert forall|k: int| 0 <= k < self@.homeworks.len() implies (
                    #[trigger] self@.homeworks[k]).id < self@.next_homework_id by {
                        let k0: int = if k < i { k } else { k + 1 };
                        assert(self@.homeworks[k] == hws[k0]);
                    }
                }
                return true;
            }
            i += 1;
        }
        false
    }

    /// Can another homework be created? (Ids are never reused, so a
    /// store that has handed out the largest id is full.)
    pub fn can_create_homework(&self) -> (b: bool)
        ensures
            b == (self@.next_homework_id < i32::MAX),
    {
        self.next_homework_id < i32::MAX
    }

    /// Can another subject be created?
    pub fn can_create_subject(&self) -> (b: bool)
        ensures
            b == (self@.next_subject_id < i32::MAX),
    {
        self.next_subject_id < i32::MAX
    }

    /// All homeworks, in insertion order.
    pub fn homeworks(&self) -> (r: Vec<Homework>)
        ensures
            r.deep_view() == self@.homeworks,
    {
        let n = self.homeworks.len();
        let mut r: Vec<Homework> = Vec::new();
        let mut i: usize = 0;
        while i < n
            invariant
                i <= n,
                n == self.homeworks@.len(),
                r.deep_view() == self.homeworks.deep_view().subrange(0, i as int),
            decreases n - i,
        {
            let ghost before = r.deep_view();
            r.push(self.homeworks[i].clone());
            proof {
                assert(r.deep_view() =~= before.push(self.homeworks@[i as int]@));
                assert(r.deep_view() =~= self.homeworks.deep_view().subrange(0, i as int + 1));
            }
            i += 1;
        }
        proof {
            assert(self.homeworks.deep_view().subrange(0, n as int) =~= self@.homeworks);
        }
        r
    }

    /// All subjects, in insertion order.
    pub fn list_subjects(&self) -> (r: Vec<Subject>)
        ensures
            r.deep_view() == self@.subjects,
    {
        let n = self.subjects.len();
        let mut r: Vec<Subject> = Vec::new();
        let mut i: usize = 0;
        while i < n
            invariant
                i <= n,
                n == self.subjects@.len(),
                r.deep_view() == self.subjects.deep_view().subrange(0, i as int),
            decreases n - i,
        {
            let ghost before = r.deep_view();
            r.push(self.subjects[i].clone());
            proof {
                assert(r.deep_view() =~= before.push(self.subjects@[i as int]@));
                assert(r.deep_view() =~= self.subjects.deep_view().subrange(0, i as int + 1));
            }
            i += 1;
        }
        proof {
            assert(self.subjects.deep_view().subrange(0, n as int) =~= self@.subjects);
        }
        r
    }

    /// Looks a subject up by id; `None` exactly when no such subject
    /// exists.
    pub fn find_subject(&self, id: i32) -> (r: Option<Subject>)
        ensures
            r is Some <==> exists|k: int|
                0 <= k < self@.subjects.len() && (#[trigger] self@.subjects[k]).id == id as int,
            match r {
                Some(s) => exists|k: int|
                    0 <= k < self@.subjects.len() && (#[trigger] self@.subjects[k]).id == id as int
                        && s@ == self@.subjects[k],
                None => true,
            },
    {
        let ghost subs = self@.subjects;
        let n = self.subjects.len();
        let mut i: usize = 0;
        while i < n
            invariant
                i <= n,
                n == self.subjects@.len(),
                subs == self.subjects.deep_view(),
                forall|k: int| 0 <= k < i ==> (#[trigger] subs[k]).id != id as int,
            decreases n - i,
        {
            proof {
                assert(subs[i as int] == self.subjects@[i as int]@);
            }
            if self.subjects[i].id == id {
                return Some(self.subjects[i].clone());
            }
            i += 1;
        }
        None
    }

    /// Creates a subject: assigns the next id, stamps both timestamps
    /// with `now`, and returns the stored row.
    pub fn create_subject(&mut self, new: NewSubject, now: i64) -> (s: Subject)
        requires
            store_inv(old(self)@),
            old(self)@.next_subject_id < i32::MAX,
        ensures
            store_inv(final(self)@),
            s@ == created_subject_view(new, old(self)@.next_subject_id, now as int),
            final(self)@.subjects == old(self)@.subjects.push(s@),
            final(self)@.homeworks == old(self)@.homeworks,
            final(self)@.next_subject_id == old(self)@.next_subject_id + 1,
            final(self)@.next_homework_id == old(self)@.next_homework_id,
    {
        let row = Subject {
            id: self.next_subject_id,
            created_at: now,
            updated_at: now,
            name: new.name,
            hex_color: new.hex_color,
        };
        let result = row.clone();
        let ghost old_subs = self.subjects.deep_view();
        self.subjects.push(row);
        self.next_subject_id = self.next_subject_id + 1;
        proof {
            assert(self@.subjects =~= old_subs.push(result@));
        }
        result
    }

    /// Applies a field-level partial update to the subject with the given
    /// id and stamps `updated_at`; returns the updated row, or `None`
    /// (leaving the store unchanged) when no such subject exists.
    pub fn update_subject(&mut self, id: i32, upd: UpdatedSubject, now: i64) -> (r: Option<
        Subject,
    >)
        requires
            store_inv(old(self)@),
        ensures
            store_inv(final(self)@),
            final(self)@.homeworks == old(self)@.homeworks,
            final(self)@.next_homework_id == old(self)@.next_homework_id,
            final(self)@.next_subject_id == old(self)@.next_subject_id,
            r is Some <==> exists|k: int|
                0 <= k < old(self)@.subjects.len() && (#[trigger] old(
                    self,
                )@.subjects[k]).id == id as int,
            match r {
                Some(s) => exists|k: int|
                    0 <= k < old(self)@.subjects.len() && (#[trigger] old(
                        self,
                    )@.subjects[k]).id == id as int && s@ == updated_subject_view(
                        old(self)@.subjects[k],
                        upd,
                        now as int,
                    ) && final(self)@.subjects == old(self)@.subjects.update(k, s@),
                None => final(self)@ == old(self)@,
            },
    {
        let ghost subs = old(self)@.subjects;
        let n = self.subjects.len();
        let mut i: usize = 0;
        while i < n
            invariant
                i <= n,
                n == self.subjects@.len(),
                subs == self.subjects.deep_view(),
                self@ == old(self)@,
                store_inv(old(self)@),
                subs == old(self)@.subjects,
                forall|k: int| 0 <= k < i ==> (#[trigger] subs[k]).id != id as int,
            decreases n - i,
        {
            proof {
                assert(subs[i as int] == self.subjects@[i as int]@);
            }
            if self.subjects[i].id == id {
                let ghost updv = upd;
                let cur = &self.subjects[i];
                let updated = Subject {
                    id: cur.id,
                    created_at: cur.created_at,
                    updated_at: now,
                    name: match upd.name {
                        Some(n2) => n2,
                        None => cur.name.clone(),
                    },
                    hex_color: match upd.hex_color {
                        Some(c) => Some(c),
                        None => crate::models::clone_opt_string(&cur.hex_color),
                    },
                };
                proof {
                    assert(updated@ == updated_subject_view(subs[i as int], updv, now as int));
                }
                let result = updated.clone();
                self.subjects[i] = updated;
                proof {
                    assert(self@.subjects =~= subs.update(i as int, result@));
                    assert forall|a: int, b: int|
                        #![trigger self@.subjects[a], self@.subjects[b]]
                        0 <= a < b < self@.subjects.len() implies self@.subjects[a].id
                        < self@.subjects[b].id by {
                        assert(subs[a].id < subs[b].id);
                    }
                    assert forall|k: int| 0 <= k < self@.subjects.len() implies (
                    #[trigger] self@.subjects[k]).id < self@.next_subject_id by {
                        assert(subs[k].id < old(self)@.next_subject_id);
                    }
                }
                return Some(result);
            }
            i += 1;
        }
        None
    }

    /// Deletes the subject with the given id; reports whether one was
    /// deleted. Homeworks referencing it are left untouched: they keep
    /// their `subject_id` and list with an absent subject thereafter.
    pub fn delete_subject(&mut self, id: i32) -> (deleted: bool)
        requires
            store_inv(old(self)@),
        ensures
            store_inv(final(self)@),
            final(self)@.homeworks == old(self)@.homeworks,
            final(self)@.next_homework_id == old(self)@.next_homework_id,
            final(self)@.next_subject_id == old(self)@.next_subject_id,
            deleted <==> exists|k: int|
                0 <= k < old(self)@.subjects.len() && (#[trigger] old(
                    self,
                )@.subjects[k]).id == id as int,
            deleted ==> exists|k: int|
                0 <= k < old(self)@.subjects.len() && (#[trigger] old(
                    self,
                )@.subjects[k]).id == id as int && final(self)@.subjects == old(
                    self,
                )@.subjects.remove(k),
            !deleted ==> final(self)@ == old(self)@,
    {
        let ghost subs = old(self)@.subjects;
        let n = self.subjects.len();
        let mut i: usize = 0;
        while i < n
            invariant
                i <= n,
                n == self.subjects@.len(),
                subs == self.subjects.deep_view(),
                self@ == old(self)@,
                store_inv(old(self)@),
                subs == old(self)@.subjects,
                forall|k: int| 0 <= k < i ==> (#[trigger] subs[k]).id != id as int,
            decreases n - i,
        {
            proof {
                assert(subs[i as int] == self.subjects@[i as int]@);
            }
            if self.subjects[i].id == id {
                self.subjects.remove(i);
                proof {
                    assert(self@.subjects =~= subs.remove(i as int));
                    assert forall|a: int, b: int|
                        #![trigger self@.subjects[a], self@.subjects[b]]
                        0 <= a < b < self@.subjects.len() implies self@.subjects[a].id
                        < self@.subjects[b].id by {
                        let a0: int = if a < i { a } else { a + 1 };
                        let b0: int = if b < i { b } else { b + 1 };
                        assert(subs[a0].id < subs[b0].id);
                    }
                    assert forall|k: int| 0 <= k < self@.subjects.len() implies (
                    #[trigger] self@.subjects[k]).id < self@.next_subject_id by {
                        let k0: int = if k < i { k } else { k + 1 };
                        assert(self@.subjects[k] == subs[k0]);
                    }
                }
                return true;
            }
            i += 1;
        }
        false
    }

    /// The listing endpoint over the store: composes the plan for the
    /// given filter bundle and evaluates it against the stored relations.
    pub fn list_homeworks(&self, params: ListHomeworksParams, config: &ComposerConfig) -> (rows:
        Vec<HomeworkWithSubject>)
        requires
            store_inv(self@),
        ensures
            rows.deep_view().to_multiset() == matching_rows(
                self@.homeworks,
                self@.subjects,
                spec_compose(params@, *config),
            ).to_multiset(),
            rows_sorted(spec_compose(params@, *config), rows.deep_view()),
            !spec_compose(params@, *config).ranked ==> rows.deep_view() == matching_rows(
                self@.homeworks,
                self@.subjects,
                spec_compose(params@, *config),
            ),
    {
        let plan = compose(params, config);
        run_query(&self.homeworks, &self.subjects, &plan)
    }
}

} // verus!
