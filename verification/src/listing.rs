//! Evaluation of a query plan over the homework relation left-outer-joined
//! to its subjects.
//!
//! The contract of `run_query` pins the result down completely: the rows
//! are exactly the homeworks satisfying the conjunction of the plan's
//! predicates, each paired with its resolved subject (or none), and the
//! order is strict — descending relevance rank under ranked search, then
//! ascending id — so any two runs over the same data agree.

use vstd::prelude::*;

use crate::models::{Homework, HomeworkView, HomeworkWithSubject, HomeworkWithSubjectView, Subject, SubjectView};
use crate::query::{
    compose, spec_compose, ComposerConfig, ListHomeworksParams, QueryPlan, QueryPlanView,
};
use crate::text::{
    all_terms_occur, all_terms_occur_exec, chars_of, count_hits, rank_of, term_views,
};

verus! {

/// Does homework `h` satisfy every predicate that plan `p` carries?
/// Absent filters impose no constraint. A due-date bound excludes rows
/// without a due date, and the subject filter excludes rows without a
/// subject, exactly as comparisons against a null column do.
pub open spec fn row_matches(h: HomeworkView, p: QueryPlanView) -> bool {
    &&& match p.terms {
        Some(ts) => all_terms_occur(ts, h.title, h.description),
        None => true,
    }
    &&& match p.start_due {
        Some(d) => match h.due_date {
            Some(x) => x >= d,
            None => false,
        },
        None => true,
    }
    &&& match p.end_due {
        Some(d) => match h.due_date {
            Some(x) => if p.end_is_upper {
                x <= d
            } else {
                x >= d
            },
            None => false,
        },
        None => true,
    }
    &&& match p.done {
        Some(b) => h.done == b,
        None => true,
    }
    &&& match p.subject_ids {
        Some(ids) => match h.subject_id {
            Some(sid) => ids.contains(sid),
            None => false,
        },
        None => true,
    }
}

/// The first subject of `subs` whose id is `sid`.
pub open spec fn subject_lookup(subs: Seq<SubjectView>, sid: int) -> Option<SubjectView>
    decreases subs.len(),
{
    if subs.len() == 0 {
        None
    } else if subs[0].id == sid {
        Some(subs[0])
    } else {
        subject_lookup(subs.drop_first(), sid)
    }
}

/// The subject a homework row resolves to: none when `subject_id` is null
/// or when no subject carries that id (left-outer-join semantics).
pub open spec fn resolve_subject(subs: Seq<SubjectView>, h: HomeworkView) -> Option<SubjectView> {
    match h.subject_id {
        Some(sid) => subject_lookup(subs, sid),
        None => None,
    }
}

/// The projection the listing produces for one homework row.
pub open spec fn project_row(subs: Seq<SubjectView>, h: HomeworkView) -> HomeworkWithSubjectView {
    HomeworkWithSubjectView { homework: h, subject: resolve_subject(subs, h) }
}

/// The predicate of plan `p`, as a function on rows.
pub open spec fn row_pred(p: QueryPlanView) -> spec_fn(HomeworkView) -> bool {
    |h: HomeworkView| row_matches(h, p)
}

/// The projection against `subs`, as a function on rows.
pub open spec fn project_fn(subs: Seq<SubjectView>) -> spec_fn(HomeworkView) -> HomeworkWithSubjectView {
    |h: HomeworkView| project_row(subs, h)
}

/// The rows a plan selects, in stored order: the homeworks satisfying the
/// plan's predicates, each paired with its resolved subject.
pub open spec fn matching_rows(
    hws: Seq<HomeworkView>,
    subs: Seq<SubjectView>,
    p: QueryPlanView,
) -> Seq<HomeworkWithSubjectView> {
    hws.filter(row_pred(p)).map_values(project_fn(subs))
}

/// The sort key a plan assigns to a row: the relevance rank under ranked
/// search, zero otherwise (so that ordering degenerates to ascending id).
pub open spec fn row_rank(p: QueryPlanView, h: HomeworkView) -> int {
    if p.ranked {
        match p.terms {
            Some(ts) => rank_of(ts, h.title, h.description) as int,
            None => 0,
        }
    } else {
        0
    }
}

/// The strict result order of plan `p`: descending rank, then ascending
/// id. Distinct rows with distinct ids are always ordered one way or the
/// other.
pub open spec fn row_before(
    p: QueryPlanView,
    a: HomeworkWithSubjectView,
    b: HomeworkWithSubjectView,
) -> bool {
    ||| row_rank(p, a.homework) > row_rank(p, b.homework)
    ||| (row_rank(p, a.homework) == row_rank(p, b.homework) && a.homework.id < b.homework.id)
}

/// Is `rows` strictly ordered as plan `p` demands?
pub open spec fn rows_sorted(p: QueryPlanView, rows: Seq<HomeworkWithSubjectView>) -> bool {
    forall|i: int, j: int|
        0 <= i < j < rows.len() ==> row_before(p, #[trigger] rows[i], #[trigger] rows[j])
}

/// Are the homework ids of `hws` strictly ascending?
pub open spec fn ids_ascending(hws: Seq<HomeworkView>) -> bool {
    forall|i: int, j: int|
        #![trigger hws[i], hws[j]]
        0 <= i < j < hws.len() ==> hws[i].id < hws[j].id
}

/// Are the homework ids of the rows `rows` strictly ascending?
pub open spec fn row_ids_ascending(rows: Seq<HomeworkWithSubjectView>) -> bool {
    forall|i: int, j: int|
        #![trigger rows[i], rows[j]]
        0 <= i < j < rows.len() ==> rows[i].homework.id < rows[j].homework.id
}

/// The view of an optional subject.
pub open spec fn opt_subject_view(s: Option<Subject>) -> Option<SubjectView> {
    match s {
        Some(v) => Some(v@),
        None => None,
    }
}

/// What `matching_rows` yields: no more rows than homeworks; every row
/// satisfies the plan and carries its resolved subject; every matching
/// homework appears; and stored id order is preserved.
pub proof fn lemma_matching_rows_facts(
    hws: Seq<HomeworkView>,
    subs: Seq<SubjectView>,
    p: QueryPlanView,
)
    ensures
        matching_rows(hws, subs, p).len() <= hws.len(),
        forall|k: int|
            0 <= k < matching_rows(hws, subs, p).len() ==> {
                let r = #[trigger] matching_rows(hws, subs, p)[k];
                &&& row_matches(r.homework, p)
                &&& r.subject == resolve_subject(subs, r.homework)
                &&& hws.contains(r.homework)
            },
        forall|h: HomeworkView|
            #![trigger row_matches(h, p)]
            hws.contains(h) && row_matches(h, p) ==> matching_rows(hws, subs, p).contains(
                project_row(subs, h),
            ),
        ids_ascending(hws) ==> row_ids_ascending(matching_rows(hws, subs, p)),
    decreases hws.len(),
{
    reveal(Seq::filter);
    let m = matching_rows(hws, subs, p);
    if hws.len() == 0 {
        assert(hws.filter(row_pred(p)).len() == 0);
        assert(m =~= Seq::<HomeworkWithSubjectView>::empty());
    } else {
        let d = hws.drop_last();
        let x = hws.last();
        lemma_matching_rows_facts(d, subs, p);
        let md = matching_rows(d, subs, p);
        if row_pred(p)(x) {
            Seq::lemma_push_map_commute(d.filter(row_pred(p)), project_fn(subs), x);
            assert(m =~= md.push(project_row(subs, x)));
        } else {
            assert(m =~= md);
        }
        assert forall|k: int| 0 <= k < m.len() implies {
            let r = #[trigger] m[k];
            &&& row_matches(r.homework, p)
            &&& r.subject == resolve_subject(subs, r.homework)
            &&& hws.contains(r.homework)
        } by {
            if k < md.len() {
                assert(m[k] == md[k]);
                assert(d.contains(md[k].homework));
                let j = choose|j: int| 0 <= j < d.len() && d[j] == md[k].homework;
                assert(hws[j] == d[j]);
            } else {
                assert(m[k] == project_row(subs, x));
                assert(hws[hws.len() - 1] == x);
            }
        }
        assert forall|h: HomeworkView|
            hws.contains(h) && #[trigger] row_matches(h, p) implies m.contains(
            project_row(subs, h),
        ) by {
            let j = choose|j: int| 0 <= j < hws.len() && hws[j] == h;
            if j < d.len() {
                assert(d[j] == h);
                assert(d.contains(h));
                assert(md.contains(project_row(subs, h)));
                let k = choose|k: int| 0 <= k < md.len() && md[k] == project_row(subs, h);
                assert(m[k] == project_row(subs, h));
            } else {
                assert(h == x);
                assert(m[m.len() - 1] == project_row(subs, x));
            }
        }
        if ids_ascending(hws) {
            assert(forall|i: int, j: int|
                #![trigger d[i], d[j]]
                0 <= i < j < d.len() ==> d[i].id < d[j].id) by {
                assert(forall|i: int| 0 <= i < d.len() ==> d[i] == hws[i]);
            }
            assert(row_ids_ascending(md));
            assert forall|i: int, j: int|
                #![trigger m[i], m[j]]
                0 <= i < j < m.len() implies m[i].homework.id < m[j].homework.id by {
                if j < md.len() {
                    assert(m[i] == md[i] && m[j] == md[j]);
                } else {
                    assert(j == m.len() - 1);
                    if m.len() > md.len() {
                        assert(m[j] == project_row(subs, x));
                        assert(m[i] == md[i]);
                        assert(d.contains(md[i].homework));
                        let l = choose|l: int| 0 <= l < d.len() && d[l] == md[i].homework;
                        assert(hws[l] == d[l]);
                        assert(hws[l].id < x.id);
                    }
                }
            }
        }
    }
}

/// Does `ids` contain `x`?
fn contains_id(ids: &Vec<i32>, x: i32) -> (b: bool)
    ensures
        b == ids@.map_values(|v: i32| v as int).contains(x as int),
{
    let ghost mapped = ids@.map_values(|v: i32| v as int);
    let n = ids.len();
    let mut i: usize = 0;
    while i < n
        invariant
            i <= n,
            n == ids@.len(),
            mapped == ids@.map_values(|v: i32| v as int),
            forall|k: int| 0 <= k < i ==> mapped[k] != x as int,
        decreases n - i,
    {
        if ids[i] == x {
            proof {
                assert(mapped[i as int] == x as int);
            }
            return true;
        }
        i += 1;
    }
    false
}

/// Resolves the subject a row points at: a linear scan for the first
/// subject with the given id.
pub(crate) fn lookup_subject(subjects: &Vec<Subject>, sid: i32) -> (r: Option<Subject>)
    ensures
        opt_subject_view(r) == subject_lookup(subjects.deep_view(), sid as int),
{
    let ghost subs = subjects.deep_view();
    let n = subjects.len();
    let mut i: usize = 0;
    proof {
        assert(subs.skip(0) =~= subs);
    }
    while i < n
        invariant
            i <= n,
            n == subjects@.len(),
            subs == subjects.deep_view(),
            subject_lookup(subs, sid as int) == subject_lookup(
                subs.skip(i as int),
                sid as int,
            ),
        decreases n - i,
    {
        proof {
            assert(subs.skip(i as int)[0] == subs[i as int]);
            assert(subs.skip(i as int).drop_first() =~= subs.skip(i as int + 1));
        }
        if subjects[i].id == sid {
            return Some(subjects[i].clone());
        }
        i += 1;
    }
    proof {
        assert(subs.skip(n as int) =~= Seq::<SubjectView>::empty());
    }
    None
}

/// Does homework `h` satisfy every predicate of `plan`?
pub fn matches_row(h: &Homework, plan: &QueryPlan) -> (b: bool)
    ensures
        b == row_matches(h@, plan@),
{
    let terms_ok = match &plan.terms {
        Some(ts) => {
            let title = chars_of(h.title.as_str());
            let description = chars_of(h.description.as_str());
            all_terms_occur_exec(ts, &title, &description)
        },
        None => true,
    };
    if !terms_ok {
        return false;
    }
    let start_ok = match plan.start_due {
        Some(d) => match h.due_date {
            Some(x) => x >= d,
            None => false,
        },
        None => true,
    };
    if !start_ok {
        return false;
    }
    let end_ok = match plan.end_due {
        Some(d) => match h.due_date {
            Some(x) => if plan.end_is_upper {
                x <= d
            } else {
                x >= d
            },
            None => false,
        },
        None => true,
    };
    if !end_ok {
        return false;
    }
    let done_ok = match plan.done {
        Some(b) => h.done == b,
        None => true,
    };
    if !done_ok {
        return false;
    }
    match &plan.subject_ids {
        Some(ids) => match h.subject_id {
            Some(sid) => contains_id(ids, sid),
            None => false,
        },
        None => true,
    }
}

/// Selects and projects the matching rows, in stored order.
fn select_rows(
    homeworks: &Vec<Homework>,
    subjects: &Vec<Subject>,
    plan: &QueryPlan,
) -> (rows: Vec<HomeworkWithSubject>)
    ensures
        rows.deep_view() == matching_rows(homeworks.deep_view(), subjects.deep_view(), plan@),
{
    let ghost hws = homeworks.deep_view();
    let ghost subs = subjects.deep_view();
    let n = homeworks.len();
    let mut rows: Vec<HomeworkWithSubject> = Vec::new();
    let mut i: usize = 0;
    proof {
        reveal(Seq::filter);
        assert(hws.subrange(0, 0) =~= Seq::<HomeworkView>::empty());
        assert(rows.deep_view() =~= matching_rows(hws.subrange(0, 0), subs, plan@));
    }
    while i < n
        invariant
            i <= n,
            n == homeworks@.len(),
            hws == homeworks.deep_view(),
            subs == subjects.deep_view(),
            rows.deep_view() == matching_rows(hws.subrange(0, i as int), subs, plan@),
        decreases n - i,
    {
        let ghost prefix = hws.subrange(0, i as int);
        let h = &homeworks[i];
        proof {
            assert(hws[i as int] == h@);
            assert(hws.subrange(0, i as int + 1) =~= prefix.push(h@));
            prefix.lemma_filter_push(h@, row_pred(plan@));
        }
        if matches_row(h, plan) {
            let subject = match h.subject_id {
                Some(sid) => lookup_subject(subjects, sid),
                None => None,
            };
            let ghost old_rows = rows.deep_view();
            let row = HomeworkWithSubject { homework: h.clone(), subject };
            proof {
                assert(row@ == project_row(subs, h@));
            }
            rows.push(row);
            proof {
                Seq::lemma_push_map_commute(prefix.filter(row_pred(plan@)), project_fn(subs), h@);
                assert(rows.deep_view() =~= old_rows.push(row@));
            }
        }
        i += 1;
    }
    proof {
        assert(hws.subrange(0, n as int) =~= hws);
    }
    rows
}

/// The strict order of ranked search, spelled over the terms: descending
/// rank, ascending id as the tie-break.
pub open spec fn ranked_before(
    tsv: Seq<Seq<char>>,
    a: HomeworkWithSubjectView,
    b: HomeworkWithSubjectView,
) -> bool {
    ||| rank_of(tsv, a.homework.title, a.homework.description) > rank_of(
        tsv,
        b.homework.title,
        b.homework.description,
    )
    ||| (rank_of(tsv, a.homework.title, a.homework.description) == rank_of(
        tsv,
        b.homework.title,
        b.homework.description,
    ) && a.homework.id < b.homework.id)
}

/// The relevance rank of one homework against the search terms.
fn rank_homework(terms: &Vec<Vec<char>>, h: &Homework) -> (r: u128)
    ensures
        r == rank_of(term_views(terms@), h.title@, h.description@),
{
    let title = chars_of(h.title.as_str());
    let description = chars_of(h.description.as_str());
    let a = count_hits(&title, terms);
    let b = count_hits(&description, terms);
    a as u128 + b as u128
}

/// Sorts rows with strictly ascending ids into ranked order by insertion,
/// preserving the row multiset.
fn sort_ranked(rows: Vec<HomeworkWithSubject>, terms: &Vec<Vec<char>>) -> (out: Vec<
    HomeworkWithSubject,
>)
    requires
        row_ids_ascending(rows.deep_view()),
    ensures
        out.deep_view().to_multiset() == rows.deep_view().to_multiset(),
        forall|i: int, j: int|
            0 <= i < j < out.deep_view().len() ==> ranked_before(
                term_views(terms@),
                #[trigger] out.deep_view()[i],
                #[trigger] out.deep_view()[j],
            ),
{
    let ghost tsv = term_views(terms@);
    let ghost rv = rows.deep_view();
    let n = rows.len();
    let mut out: Vec<HomeworkWithSubject> = Vec::new();
    let mut i: usize = 0;
    proof {
        assert(out.deep_view() =~= rv.subrange(0, 0));
    }
    while i < n
        invariant
            i <= n,
            n == rows@.len(),
            rv == rows.deep_view(),
            tsv == term_views(terms@),
            row_ids_ascending(rv),
            out.deep_view().to_multiset() == rv.subrange(0, i as int).to_multiset(),
            forall|k: int, l: int|
                0 <= k < l < out.deep_view().len() ==> ranked_before(
                    tsv,
                    #[trigger] out.deep_view()[k],
                    #[trigger] out.deep_view()[l],
                ),
            forall|k: int|
                0 <= k < out.deep_view().len() && i < n ==> (#[trigger] out.deep_view()[k]).homework.id < rv[i as int].homework.id,
        decreases n - i,
    {
        let ghost odv = out.deep_view();
        let row = rows[i].clone();
        let r_new = rank_homework(terms, &row.homework);
        let id_new = row.homework.id;
        proof {
            assert(rows.deep_view()[i as int] == rows@[i as int]@);
            assert(row@ == rv[i as int]);
        }
        let m = out.len();
        let mut idx: usize = 0;
        loop
            invariant
                idx <= m,
                m == out@.len(),
                odv == out.deep_view(),
                tsv == term_views(terms@),
                r_new == rank_of(tsv, row@.homework.title, row@.homework.description),
                id_new == row@.homework.id,
                forall|k: int| 0 <= k < idx ==> ranked_before(tsv, #[trigger] odv[k], row@),
            ensures
                idx <= m,
                forall|k: int| 0 <= k < idx ==> ranked_before(tsv, #[trigger] odv[k], row@),
                idx == m || !ranked_before(tsv, odv[idx as int], row@),
            decreases m - idx,
        {
            if idx >= m {
                break;
            }
            proof {
                assert(out.deep_view()[idx as int] == out@[idx as int]@);
            }
            let r_cur = rank_homework(terms, &out[idx].homework);
            let keeps = r_cur > r_new || (r_cur == r_new && out[idx].homework.id < id_new);
            if !keeps {
                break;
            }
            idx += 1;
        }
        let ghost oav = out@;
        let ghost row_val = row;
        let ghost rowv = row_val@;
        let ghost inserted = odv.insert(idx as int, rowv);
        proof {
            // The element that ends the scan ranks strictly below the new
            // row: its id is smaller, so equal ranks would have kept it.
            if idx < m {
                assert(odv[idx as int].homework.id < rowv.homework.id);
                assert(!ranked_before(tsv, odv[idx as int], rowv));
                assert(rank_of(tsv, odv[idx as int].homework.title, odv[idx as int].homework.description) < rank_of(tsv, rowv.homework.title, rowv.homework.description));
            }
        }
        out.insert(idx, row);
        proof {
            oav.insert_ensures(idx as int, row_val);
            odv.insert_ensures(idx as int, rowv);
            assert forall|k: int| 0 <= k < inserted.len() implies out.deep_view()[k]
                == inserted[k] by {
                assert(out.deep_view()[k] == out@[k]@);
            }
            assert(out.deep_view() =~= inserted);
            // The multiset grows by exactly the new row.
            vstd::seq_lib::to_multiset_insert(odv, idx as int, rowv);
            assert(rv.subrange(0, i as int + 1) =~= rv.subrange(0, i as int).push(
                rv[i as int],
            ));
            rv.subrange(0, i as int).to_multiset_ensures();
            // Strict order is preserved around the insertion point.
            assert forall|k: int, l: int| 0 <= k < l < inserted.len() implies ranked_before(
                tsv,
                inserted[k],
                inserted[l],
            ) by {
                if l < idx {
                    assert(inserted[k] == odv[k] && inserted[l] == odv[l]);
                } else if k < idx && l == idx {
                    assert(inserted[k] == odv[k] && inserted[l] == rowv);
                } else if k < idx && l > idx {
                    assert(inserted[k] == odv[k] && inserted[l] == odv[l - 1]);
                    assert(ranked_before(tsv, odv[k], odv[l - 1]));
                } else if k == idx && l > idx {
                    assert(inserted[k] == rowv && inserted[l] == odv[l - 1]);
                    if l - 1 > idx {
                        assert(ranked_before(tsv, odv[idx as int], odv[l - 1]));
                    }
                    assert(rank_of(tsv, odv[l - 1].homework.title, odv[l - 1].homework.description) < rank_of(tsv, rowv.homework.title, rowv.homework.description));
                } else {
                    assert(k > idx);
                    assert(inserted[k] == odv[k - 1] && inserted[l] == odv[l - 1]);
                    assert(ranked_before(tsv, odv[k - 1], odv[l - 1]));
                }
            }
            // Every id placed so far stays below the next incoming id.
            if i + 1 < n {
                assert(rv[i as int].homework.id < rv[i as int + 1].homework.id);
                assert forall|k: int| 0 <= k < inserted.len() implies inserted[k].homework.id < rv[
                    i as int + 1
                ].homework.id by {
                    if k < idx {
                        assert(inserted[k] == odv[k]);
                    } else if k == idx {
                        assert(inserted[k] == rowv);
                    } else {
                        assert(inserted[k] == odv[k - 1]);
                    }
                }
            }
        }
        i += 1;
    }
    proof {
        assert(rv.subrange(0, n as int) =~= rv);
    }
    out
}

/// Evaluates a query plan over the stored relations.
///
/// The result is pinned down completely: its rows are exactly the
/// homeworks satisfying the conjunction of the plan's predicates, each
/// paired with its resolved subject (absent subjects never exclude a row),
/// and they stand in the plan's strict order — descending rank then
/// ascending id under ranked search, ascending id otherwise. Under an
/// unranked plan the result is literally the matching rows in stored
/// order.
pub fn run_query(
    homeworks: &Vec<Homework>,
    subjects: &Vec<Subject>,
    plan: &QueryPlan,
) -> (rows: Vec<HomeworkWithSubject>)
    requires
        ids_ascending(homeworks.deep_view()),
    ensures
        rows.deep_view().to_multiset() == matching_rows(
            homeworks.deep_view(),
            subjects.deep_view(),
            plan@,
        ).to_multiset(),
        rows_sorted(plan@, rows.deep_view()),
        !plan@.ranked ==> rows.deep_view() == matching_rows(
            homeworks.deep_view(),
            subjects.deep_view(),
            plan@,
        ),
{
    let ghost hws = homeworks.deep_view();
    let ghost subs = subjects.deep_view();
    let ghost p = plan@;
    let selected = select_rows(homeworks, subjects, plan);
    proof {
        lemma_matching_rows_facts(hws, subs, p);
    }
    if plan.ranked {
        match &plan.terms {
            Some(ts) => {
                let ghost tsv = term_views(ts@);
                let sorted = sort_ranked(selected, ts);
                proof {
                    assert(p.terms == Some(tsv));
                    assert forall|i: int, j: int|
                        0 <= i < j < sorted.deep_view().len() implies row_before(
                        p,
                        #[trigger] sorted.deep_view()[i],
                        #[trigger] sorted.deep_view()[j],
                    ) by {
                        assert(ranked_before(tsv, sorted.deep_view()[i], sorted.deep_view()[j]));
                    }
                }
                sorted
            },
            None => {
                proof {
                    assert forall|i: int, j: int|
                        0 <= i < j < selected.deep_view().len() implies row_before(
                        p,
                        #[trigger] selected.deep_view()[i],
                        #[trigger] selected.deep_view()[j],
                    ) by {
                        assert(row_rank(p, selected.deep_view()[i].homework) == 0);
                        assert(row_rank(p, selected.deep_view()[j].homework) == 0);
                    }
                }
                selected
            },
        }
    } else {
        proof {
            assert forall|i: int, j: int|
                0 <= i < j < selected.deep_view().len() implies row_before(
                p,
                #[trigger] selected.deep_view()[i],
                #[trigger] selected.deep_view()[j],
            ) by {
                assert(row_rank(p, selected.deep_view()[i].homework) == 0);
                assert(row_rank(p, selected.deep_view()[j].homework) == 0);
            }
        }
        selected
    }
}

/// The listing endpoint's computation: composes the plan for the given
/// filter bundle and configuration, then evaluates it.
pub fn list_homeworks(
    homeworks: &Vec<Homework>,
    subjects: &Vec<Subject>,
    params: ListHomeworksParams,
    config: &ComposerConfig,
) -> (rows: Vec<HomeworkWithSubject>)
    requires
        ids_ascending(homeworks.deep_view()),
    ensures
        rows.deep_view().to_multiset() == matching_rows(
            homeworks.deep_view(),
            subjects.deep_view(),
            spec_compose(params@, *config),
        ).to_multiset(),
        rows_sorted(spec_compose(params@, *config), rows.deep_view()),
        !spec_compose(params@, *config).ranked ==> rows.deep_view() == matching_rows(
            homeworks.deep_view(),
            subjects.deep_view(),
            spec_compose(params@, *config),
        ),
{
    let plan = compose(params, config);
    run_query(homeworks, subjects, &plan)
}

} // verus!
