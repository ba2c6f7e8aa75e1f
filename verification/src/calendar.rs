//! The calendar export's computation: which homeworks become events and
//! what each event says. Rendering the actual calendar text is left to
//! the surrounding program; this module fixes the content.
//!
//! Every homework with a due date yields one event: it starts at the due
//! date, lasts one hour, carries the description, and its summary is the
//! title, extended with ` - ` and the subject's name when the subject
//! resolves.

use vstd::prelude::*;
use vstd::string::StringExecFns;

use crate::listing::{lookup_subject, resolve_subject};
use crate::models::{Homework, HomeworkView, Subject, SubjectView};

verus! {

/// One calendar event, ready for rendering. Times are seconds since the
/// Unix epoch.
#[derive(Debug, PartialEq)]
pub struct CalendarEntry {
    pub summary: String,
    pub description: String,
    pub starts: i64,
    pub ends: i64,
}

/// Mathematical model of a calendar event.
pub ghost struct CalendarEntryView {
    pub summary: Seq<char>,
    pub description: Seq<char>,
    pub starts: int,
    pub ends: int,
}

impl View for CalendarEntry {
    type V = CalendarEntryView;

    open spec fn view(&self) -> CalendarEntryView {
        CalendarEntryView {
            summary: self.summary@,
            description: self.description@,
            starts: self.starts as int,
            ends: self.ends as int,
        }
    }
}

impl DeepView for CalendarEntry {
    type V = CalendarEntryView;

    open spec fn deep_view(&self) -> CalendarEntryView {
        self.view()
    }
}

/// The summary of a homework's event: the title, with the resolved
/// subject's name appended after a separator when there is one.
pub open spec fn event_summary(subs: Seq<SubjectView>, h: HomeworkView) -> Seq<char> {
    match resolve_subject(subs, h) {
        Some(s) => h.title + " - "@ + s.name,
        None => h.title,
    }
}

/// Does the homework carry a due date (and so yield an event)?
pub open spec fn dated(h: HomeworkView) -> bool {
    h.due_date is Some
}

/// The predicate selecting dated homeworks, as a function on rows.
pub open spec fn dated_pred() -> spec_fn(HomeworkView) -> bool {
    |h: HomeworkView| dated(h)
}

/// The event a dated homework yields.
pub open spec fn event_of(subs: Seq<SubjectView>, h: HomeworkView) -> CalendarEntryView {
    CalendarEntryView {
        summary: event_summary(subs, h),
        description: h.description,
        starts: h.due_date->0,
        ends: h.due_date->0 + 3600,
    }
}

/// The event construction, as a function on rows.
pub open spec fn event_fn(subs: Seq<SubjectView>) -> spec_fn(HomeworkView) -> CalendarEntryView {
    |h: HomeworkView| event_of(subs, h)
}

/// The events a calendar export contains: one per dated homework, in
/// stored order.
pub open spec fn spec_calendar_entries(
    hws: Seq<HomeworkView>,
    subs: Seq<SubjectView>,
) -> Seq<CalendarEntryView> {
    hws.filter(dated_pred()).map_values(event_fn(subs))
}

/// Computes the calendar's events. Each due date must leave room for the
/// one-hour event span.
pub fn calendar_entries(homeworks: &Vec<Homework>, subjects: &Vec<Subject>) -> (entries: Vec<
    CalendarEntry,
>)
    requires
        forall|k: int|
            0 <= k < homeworks.deep_view().len() && (#[trigger] homeworks.deep_view()[k]).due_date
                is Some ==> homeworks.deep_view()[k].due_date->0 + 3600 <= i64::MAX,
    ensures
        entries.deep_view() == spec_calendar_entries(homeworks.deep_view(), subjects.deep_view()),
{
    let ghost hws = homeworks.deep_view();
    let ghost subs = subjects.deep_view();
    let n = homeworks.len();
    let mut entries: Vec<CalendarEntry> = Vec::new();
    let mut i: usize = 0;
    proof {
        reveal(Seq::filter);
        assert(hws.subrange(0, 0) =~= Seq::<HomeworkView>::empty());
        assert(entries.deep_view() =~= spec_calendar_entries(hws.subrange(0, 0), subs));
    }
    while i < n
        invariant
            i <= n,
            n == homeworks@.len(),
            hws == homeworks.deep_view(),
            subs == subjects.deep_view(),
            forall|k: int|
                0 <= k < hws.len() && (#[trigger] hws[k]).due_date is Some ==> hws[k].due_date->0
                    + 3600 <= i64::MAX,
            entries.deep_view() == spec_calendar_entries(hws.subrange(0, i as int), subs),
        decreases n - i,
    {
        let ghost prefix = hws.subrange(0, i as int);
        let h = &homeworks[i];
        proof {
            assert(hws[i as int] == h@);
            assert(hws.subrange(0, i as int + 1) =~= prefix.push(h@));
            prefix.lemma_filter_push(h@, dated_pred());
        }
        match h.due_date {
            Some(due) => {
                let mut summary = h.title.clone();
                let resolved = match h.subject_id {
                    Some(sid) => lookup_subject(subjects, sid),
                    None => None,
                };
                match resolved {
                    Some(subject) => {
                        summary.append(" - ");
                        summary.append(subject.name.as_str());
                    },
                    None => {},
                }
                proof {
                    assert(summary@ == event_summary(subs, h@));
                }
                let entry = CalendarEntry {
                    summary,
                    description: h.description.clone(),
                    starts: due,
                    ends: due + 3600,
                };
                let ghost before = entries.deep_view();
                proof {
                    assert(entry@ == event_of(subs, h@));
                }
                entries.push(entry);
                proof {
                    Seq::lemma_push_map_commute(prefix.filter(dated_pred()), event_fn(subs), h@);
                    assert(entries.deep_view() =~= before.push(entry@));
                }
            },
            None => {},
        }
        i += 1;
    }
    proof {
        assert(hws.subrange(0, n as int) =~= hws);
    }
    entries
}

} // verus!
