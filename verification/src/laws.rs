//! The listing's general guarantees, stated and proved once and for all:
//! filters only ever narrow the result set, degenerate filters equal
//! absent ones, left-join semantics never drop or fail a row, and a
//! plan's strict order makes listings reproducible.

use vstd::prelude::*;

use crate::listing::{
    lemma_matching_rows_facts, matching_rows, project_row, row_before, row_matches, rows_sorted,
    subject_lookup,
};
use crate::models::{HomeworkView, HomeworkWithSubjectView, SubjectView};
use crate::query::{
    spec_compose, spec_is_space, ComposerConfig, ListHomeworksParamsView, QueryPlanView,
    SearchMode,
};
use crate::text::{lemma_no_term_chars_no_terms, spec_is_term_char, terms_of};

verus! {

/// Plan `q` extends plan `p`: it keeps every filter `p` carries (and reads
/// `end_due` the same way), while it may add filters of its own.
pub open spec fn plan_extends(q: QueryPlanView, p: QueryPlanView) -> bool {
    &&& (p.terms is Some ==> q.terms == p.terms)
    &&& (p.start_due is Some ==> q.start_due == p.start_due)
    &&& (p.end_due is Some ==> q.end_due == p.end_due)
    &&& q.end_is_upper == p.end_is_upper
    &&& (p.done is Some ==> q.done == p.done)
    &&& (p.subject_ids is Some ==> q.subject_ids == p.subject_ids)
}

/// A row that satisfies an extended plan satisfies the plan it extends:
/// filters combine conjunctively, and an absent filter constrains nothing.
pub proof fn lemma_extends_matches(h: HomeworkView, p: QueryPlanView, q: QueryPlanView)
    requires
        plan_extends(q, p),
        row_matches(h, q),
    ensures
        row_matches(h, p),
{
}

/// Adding filters never adds rows: every row an extended plan selects,
/// the plan it extends selects too. (Read the other way round: removing a
/// filter never removes a row.)
pub proof fn lemma_extending_plan_shrinks_result(
    hws: Seq<HomeworkView>,
    subs: Seq<SubjectView>,
    p: QueryPlanView,
    q: QueryPlanView,
)
    requires
        plan_extends(q, p),
    ensures
        forall|r: HomeworkWithSubjectView|
            matching_rows(hws, subs, q).contains(r) ==> matching_rows(hws, subs, p).contains(r),
{
    lemma_matching_rows_facts(hws, subs, q);
    lemma_matching_rows_facts(hws, subs, p);
    assert forall|r: HomeworkWithSubjectView|
        matching_rows(hws, subs, q).contains(r) implies matching_rows(hws, subs, p).contains(
        r,
    ) by {
        let mq = matching_rows(hws, subs, q);
        let k = choose|k: int| 0 <= k < mq.len() && mq[k] == r;
        assert(row_matches(r.homework, q));
        lemma_extends_matches(r.homework, p, q);
        assert(r == project_row(subs, r.homework));
    }
}

/// An empty `subject_ids` filter composes to the very same plan as an
/// absent one, so it yields identical results.
pub proof fn lemma_empty_subject_ids_like_absent(
    with_empty: ListHomeworksParamsView,
    without: ListHomeworksParamsView,
    config: ComposerConfig,
)
    requires
        with_empty.subject_ids is Some && with_empty.subject_ids->0.len() == 0,
        without.subject_ids is None,
        with_empty.search == without.search,
        with_empty.start_due_date == without.start_due_date,
        with_empty.end_due_date == without.end_due_date,
        with_empty.done == without.done,
    ensures
        spec_compose(with_empty, config) == spec_compose(without, config),
{
}

/// A search string that is empty or all whitespace composes to the very
/// same plan as an absent one — same rows, same order — under either
/// search mode.
pub proof fn lemma_blank_search_like_absent(
    with_blank: ListHomeworksParamsView,
    without: ListHomeworksParamsView,
    config: ComposerConfig,
)
    requires
        with_blank.search is Some,
        forall|i: int|
            0 <= i < with_blank.search->0.len() ==> spec_is_space(#[trigger] with_blank.search->0[i]),
        without.search is None,
        with_blank.start_due_date == without.start_due_date,
        with_blank.end_due_date == without.end_due_date,
        with_blank.done == without.done,
        with_blank.subject_ids == without.subject_ids,
    ensures
        spec_compose(with_blank, config) == spec_compose(without, config),
{
    let s = with_blank.search->0;
    assert forall|i: int| 0 <= i < s.len() implies !spec_is_term_char(#[trigger] s[i]) by {
        assert(spec_is_space(s[i]));
    }
    lemma_no_term_chars_no_terms(s);
    if config.search_mode is FullText {
        assert(terms_of(s).len() == 0);
    }
}

/// A listed row whose homework has no `subject_id` always carries an
/// absent subject — never an error, never a stray join partner.
pub proof fn lemma_null_subject_reports_none(
    hws: Seq<HomeworkView>,
    subs: Seq<SubjectView>,
    p: QueryPlanView,
)
    ensures
        forall|k: int|
            0 <= k < matching_rows(hws, subs, p).len() && (#[trigger] matching_rows(
                hws,
                subs,
                p,
            )[k]).homework.subject_id is None ==> matching_rows(hws, subs, p)[k].subject is None,
{
    lemma_matching_rows_facts(hws, subs, p);
}

/// No subject of `subs` carries id `sid`, so a lookup resolves to none.
pub proof fn lemma_subject_lookup_absent(subs: Seq<SubjectView>, sid: int)
    requires
        forall|k: int| 0 <= k < subs.len() ==> (#[trigger] subs[k]).id != sid,
    ensures
        subject_lookup(subs, sid) is None,
    decreases subs.len(),
{
    if subs.len() > 0 {
        assert(forall|k: int|
            0 <= k < subs.drop_first().len() ==> (#[trigger] subs.drop_first()[k]).id != sid);
        lemma_subject_lookup_absent(subs.drop_first(), sid);
    }
}

/// A homework whose `subject_id` no longer names any subject (the subject
/// was deleted) still appears in a listing it matches — with an absent
/// subject, exactly like a null reference.
pub proof fn lemma_dangling_subject_still_listed(
    hws: Seq<HomeworkView>,
    subs: Seq<SubjectView>,
    p: QueryPlanView,
    h: HomeworkView,
)
    requires
        hws.contains(h),
        row_matches(h, p),
        h.subject_id is Some,
        forall|k: int| 0 <= k < subs.len() ==> (#[trigger] subs[k]).id != h.subject_id->0,
    ensures
        matching_rows(hws, subs, p).contains(
            HomeworkWithSubjectView { homework: h, subject: None },
        ),
{
    lemma_subject_lookup_absent(subs, h.subject_id->0);
    lemma_matching_rows_facts(hws, subs, p);
    assert(project_row(subs, h) == HomeworkWithSubjectView { homework: h, subject: None });
}

/// Without ranked search every row's sort key is the same, so the plan's
/// strict order collapses to plain ascending id.
pub proof fn lemma_unranked_order_is_id_order(
    p: QueryPlanView,
    rows: Seq<HomeworkWithSubjectView>,
)
    requires
        rows_sorted(p, rows),
        !p.ranked,
    ensures
        forall|i: int, j: int|
            #![trigger rows[i], rows[j]]
            0 <= i < j < rows.len() ==> rows[i].homework.id < rows[j].homework.id,
{
    assert forall|i: int, j: int|
        #![trigger rows[i], rows[j]]
        0 <= i < j < rows.len() implies rows[i].homework.id < rows[j].homework.id by {
        assert(row_before(p, rows[i], rows[j]));
    }
}

/// The plan's order is strict and total over rows with distinct ids, so a
/// result is determined by its row multiset: two listings of the same
/// rows in plan order are identical, ordering included. Issuing one
/// filter bundle twice against an unchanged store therefore reproduces
/// the same sequence.
pub proof fn lemma_listing_deterministic(
    p: QueryPlanView,
    a: Seq<HomeworkWithSubjectView>,
    b: Seq<HomeworkWithSubjectView>,
)
    requires
        a.to_multiset() == b.to_multiset(),
        rows_sorted(p, a),
        rows_sorted(p, b),
    ensures
        a == b,
    decreases a.len(),
{
    a.to_multiset_ensures();
    b.to_multiset_ensures();
    if a.len() == 0 {
        assert(b.len() == 0);
        assert(a =~= b);
    } else {
        assert(b.len() == a.len());
        assert(a.contains(a[0]));
        assert(a.to_multiset().count(a[0]) > 0);
        assert(b.contains(a[0]));
        assert(b.to_multiset().count(b[0]) > 0);
        assert(a.contains(b[0]));
        let i = choose|i: int| 0 <= i < a.len() && a[i] == b[0];
        let j = choose|j: int| 0 <= j < b.len() && b[j] == a[0];
        if i > 0 && j > 0 {
            assert(row_before(p, a[0], a[i]));
            assert(row_before(p, b[0], b[j]));
            assert(false);
        }
        assert(a[0] == b[0]);
        let ta = a.drop_first();
        let tb = b.drop_first();
        assert(ta =~= a.remove(0));
        assert(tb =~= b.remove(0));
        assert(ta.to_multiset() == tb.to_multiset());
        assert forall|x: int, y: int| 0 <= x < y < ta.len() implies row_before(
            p,
            #[trigger] ta[x],
            #[trigger] ta[y],
        ) by {
            assert(row_before(p, a[x + 1], a[y + 1]));
        }
        assert forall|x: int, y: int| 0 <= x < y < tb.len() implies row_before(
            p,
            #[trigger] tb[x],
            #[trigger] tb[y],
        ) by {
            assert(row_before(p, b[x + 1], b[y + 1]));
        }
        lemma_listing_deterministic(p, ta, tb);
        assert forall|k: int| 0 <= k < a.len() implies a[k] == b[k] by {
            if k > 0 {
                assert(a[k] == ta[k - 1]);
                assert(b[k] == tb[k - 1]);
            }
        }
        assert(a =~= b);
    }
}

} // verus!
