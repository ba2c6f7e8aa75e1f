//! The filter bundle of a listing request and the query composer that
//! normalises it into a fully specified plan.
//!
//! Each filter is independently optional. The composer applies two
//! normalisations, both of which turn degenerate filters into "no filter"
//! rather than an error: an empty `subject_ids` sequence, and a search
//! string without usable content (empty or all whitespace).

use vstd::prelude::*;

use crate::text::{chars_of, fold_char, folded, spec_fold_char, term_views, terms_of, tokenize};

verus! {

/// An ordered sequence of ids, as carried by the `subject_ids` filter in
/// its comma-delimited transport form.
#[derive(Debug, PartialEq)]
pub struct IdSequence(Vec<u32>);

impl View for IdSequence {
    type V = Seq<u32>;

    closed spec fn view(&self) -> Seq<u32> {
        self.0@
    }
}

/// Is `c` a decimal digit?
pub open spec fn is_digit(c: char) -> bool {
    48 <= c as u32 && c as u32 <= 57
}

/// The value of a decimal digit.
pub open spec fn digit_val(c: char) -> int {
    c as u32 - 48
}

/// The value of a digit string, most significant digit first.
pub open spec fn dec_val(s: Seq<char>) -> int
    decreases s.len(),
{
    if s.len() == 0 {
        0
    } else {
        dec_val(s.drop_last()) * 10 + digit_val(s.last())
    }
}

/// The digits of a numeral, after an optional leading `+` sign.
pub open spec fn numeral_digits(s: Seq<char>) -> Seq<char> {
    if s.len() > 0 && s[0] == '+' {
        s.drop_first()
    } else {
        s
    }
}

/// Is `s` a numeral denoting a value that fits in `u32`? (This is the
/// grammar `u32` parsing accepts: an optional `+`, then one or more
/// digits.)
pub open spec fn is_u32_numeral(s: Seq<char>) -> bool {
    &&& numeral_digits(s).len() > 0
    &&& (forall|i: int|
        0 <= i < numeral_digits(s).len() ==> is_digit(#[trigger] numeral_digits(s)[i]))
    &&& dec_val(numeral_digits(s)) <= u32::MAX
}

/// The value of a numeral.
pub open spec fn numeral_value(s: Seq<char>) -> int {
    dec_val(numeral_digits(s))
}

/// One step of splitting on commas: `cur` is the segment read so far,
/// `acc` the finished segments.
pub open spec fn scan_segments(s: Seq<char>, cur: Seq<char>, acc: Seq<Seq<char>>) -> Seq<
    Seq<char>,
>
    decreases s.len(),
{
    if s.len() == 0 {
        acc.push(cur)
    } else if s[0] == ',' {
        scan_segments(s.drop_first(), Seq::<char>::empty(), acc.push(cur))
    } else {
        scan_segments(s.drop_first(), cur.push(s[0]), acc)
    }
}

/// The comma-separated segments of `s`. The empty string has one (empty)
/// segment, and consecutive commas yield empty segments, exactly as
/// splitting on `,` does.
pub open spec fn split_commas(s: Seq<char>) -> Seq<Seq<char>> {
    scan_segments(s, Seq::<char>::empty(), Seq::<Seq<char>>::empty())
}

/// Are all comma-separated segments of `s` valid `u32` numerals?
pub open spec fn is_id_list(s: Seq<char>) -> bool {
    forall|i: int| 0 <= i < split_commas(s).len() ==> is_u32_numeral(#[trigger] split_commas(s)[i])
}

/// The ids denoted by a valid comma-separated list.
pub open spec fn id_list_values(s: Seq<char>) -> Seq<u32> {
    split_commas(s).map_values(|seg: Seq<char>| numeral_value(seg) as u32)
}

impl IdSequence {
    /// Wraps an already-decoded sequence of ids.
    pub fn new(ids: Vec<u32>) -> (r: IdSequence)
        ensures
            r@ == ids@,
    {
        IdSequence(ids)
    }

    /// The ids, converted to the signed id type of the stored rows. (The
    /// conversion wraps, exactly as an `as` cast does; ids beyond the
    /// signed range do not occur in stored data.)
    pub fn ids(self) -> (r: Vec<i32>)
        ensures
            r@.len() == self@.len(),
            forall|i: int| 0 <= i < r@.len() ==> r@[i] == self@[i] as i32,
    {
        let n = self.0.len();
        let mut r: Vec<i32> = Vec::new();
        let mut i: usize = 0;
        while i < n
            invariant
                i <= n,
                n == self@.len(),
                r@.len() == i,
                forall|k: int| 0 <= k < i ==> r@[k] == self@[k] as i32,
            decreases n - i,
        {
            r.push(#[verifier::truncate] (self.0[i] as i32));
            i += 1;
        }
        r
    }

    /// Is the sequence empty?
    pub fn is_empty(&self) -> (b: bool)
        ensures
            b == (self@.len() == 0),
    {
        self.0.is_empty()
    }

    /// Decodes the comma-delimited transport form, e.g. `"3,1,4"`. Returns
    /// `None` exactly when some segment is not a `u32` numeral; in
    /// particular the empty string is rejected, as its one segment is
    /// empty.
    pub fn parse(s: &str) -> (r: Option<IdSequence>)
        ensures
            r is Some <==> is_id_list(s@),
            r is Some ==> r->0@ == id_list_values(s@),
    {
        let cs = chars_of(s);
        let segments = split_segments(&cs);
        let n = segments.len();
        let mut ids: Vec<u32> = Vec::new();
        let mut i: usize = 0;
        while i < n
            invariant
                i <= n,
                cs@ == s@,
                term_views(segments@) == split_commas(s@),
                n == segments@.len(),
                ids@.len() == i,
                forall|k: int| 0 <= k < i ==> is_u32_numeral(#[trigger] split_commas(s@)[k]),
                forall|k: int|
                    0 <= k < i ==> ids@[k] == numeral_value(#[trigger] split_commas(s@)[k]) as u32,
            decreases n - i,
        {
            proof {
                assert(term_views(segments@)[i as int] == segments@[i as int]@);
            }
            match parse_u32(&segments[i]) {
                Some(v) => {
                    ids.push(v);
                },
                None => {
                    return None;
                },
            }
            i += 1;
        }
        proof {
            assert(ids@ =~= id_list_values(s@));
        }
        Some(IdSequence(ids))
    }
}

/// Splits a character sequence on commas.
fn split_segments(cs: &Vec<char>) -> (segments: Vec<Vec<char>>)
    ensures
        term_views(segments@) == split_commas(cs@),
{
    let n = cs.len();
    let mut acc: Vec<Vec<char>> = Vec::new();
    let mut cur: Vec<char> = Vec::new();
    let mut i: usize = 0;
    proof {
        assert(cs@.skip(0) =~= cs@);
        assert(term_views(acc@) =~= Seq::<Seq<char>>::empty());
    }
    while i < n
        invariant
            i <= n,
            n == cs@.len(),
            split_commas(cs@) == scan_segments(cs@.skip(i as int), cur@, term_views(acc@)),
        decreases n - i,
    {
        let c = cs[i];
        proof {
            assert(cs@.skip(i as int)[0] == cs@[i as int]);
            assert(cs@.skip(i as int).drop_first() =~= cs@.skip(i as int + 1));
        }
        if c == ',' {
            let ghost old_acc = acc@;
            let ghost old_cur = cur@;
            acc.push(cur);
            cur = Vec::new();
            proof {
                assert(term_views(acc@) =~= term_views(old_acc).push(old_cur));
            }
        } else {
            cur.push(c);
        }
        i += 1;
    }
    proof {
        assert(cs@.skip(n as int) =~= Seq::<char>::empty());
    }
    let ghost old_acc = acc@;
    let ghost old_cur = cur@;
    acc.push(cur);
    proof {
        assert(term_views(acc@) =~= term_views(old_acc).push(old_cur));
    }
    acc
}

/// All prefixes of a digit string have nonnegative value.
proof fn lemma_dec_val_nonneg(s: Seq<char>)
    requires
        forall|i: int| 0 <= i < s.len() ==> is_digit(#[trigger] s[i]),
    ensures
        dec_val(s) >= 0,
    decreases s.len(),
{
    if s.len() > 0 {
        assert(forall|i: int| 0 <= i < s.drop_last().len() ==> is_digit(#[trigger] s.drop_last()[i]));
        lemma_dec_val_nonneg(s.drop_last());
    }
}

/// Reading one more digit multiplies the prefix value by ten and adds the
/// digit.
proof fn lemma_dec_val_step(s: Seq<char>, i: int)
    requires
        0 <= i < s.len(),
    ensures
        dec_val(s.subrange(0, i + 1)) == dec_val(s.subrange(0, i)) * 10 + digit_val(s[i]),
{
    assert(s.subrange(0, i + 1).drop_last() =~= s.subrange(0, i));
    assert(s.subrange(0, i + 1).last() == s[i]);
}

/// The value of a digit string is at least the value of any of its
/// prefixes.
proof fn lemma_dec_val_prefix_le(s: Seq<char>, i: int)
    requires
        forall|k: int| 0 <= k < s.len() ==> is_digit(#[trigger] s[k]),
        0 <= i <= s.len(),
    ensures
        dec_val(s.subrange(0, i)) <= dec_val(s),
    decreases s.len() - i,
{
    if i == s.len() {
        assert(s.subrange(0, i) =~= s);
    } else {
        lemma_dec_val_step(s, i);
        assert(forall|k: int|
            0 <= k < s.subrange(0, i).len() ==> is_digit(#[trigger] s.subrange(0, i)[k]));
        lemma_dec_val_nonneg(s.subrange(0, i));
        lemma_dec_val_prefix_le(s, i + 1);
    }
}

/// Parses a `u32` numeral: an optional `+` sign, then one or more digits,
/// rejected on any other character or on overflow.
fn parse_u32(seg: &Vec<char>) -> (r: Option<u32>)
    ensures
        r is Some <==> is_u32_numeral(seg@),
        r is Some ==> r->0 == numeral_value(seg@) as u32,
{
    let n = seg.len();
    let start: usize = if n > 0 && seg[0] == '+' {
        1
    } else {
        0
    };
    let ghost digits = numeral_digits(seg@);
    proof {
        assert(digits =~= seg@.skip(start as int));
    }
    if start == n {
        return None;
    }
    let mut val: u64 = 0;
    let mut i: usize = start;
    while i < n
        invariant
            start <= i <= n,
            n == seg@.len(),
            digits == numeral_digits(seg@),
            digits == seg@.skip(start as int),
            val <= u32::MAX,
            forall|k: int| 0 <= k < i - start ==> is_digit(#[trigger] digits[k]),
            val == dec_val(digits.subrange(0, i - start)),
        decreases n - i,
    {
        let c = seg[i];
        let u = c as u32;
        if !(48 <= u && u <= 57) {
            proof {
                assert(digits[i - start] == seg@[i as int]);
                assert(!is_digit(numeral_digits(seg@)[i - start]));
            }
            return None;
        }
        proof {
            assert(digits[i - start] == seg@[i as int]);
            lemma_dec_val_step(digits, i - start);
        }
        let d = (u - 48) as u64;
        let next = val * 10 + d;
        if next > u32::MAX as u64 {
            proof {
                assert(forall|k: int|
                    0 <= k < i + 1 - start ==> is_digit(#[trigger] digits[k]));
                if is_u32_numeral(seg@) {
                    lemma_dec_val_prefix_le(digits, i + 1 - start);
                }
            }
            return None;
        }
        val = next;
        i += 1;
    }
    proof {
        assert(digits.subrange(0, n - start) =~= digits);
    }
    Some(#[verifier::truncate] (val as u32))
}

/// The two search strategies the composer can be built with.
///
/// `Basic` treats the whole search string as one literal, case-insensitive
/// substring of the title or the description, and leaves the default id
/// ordering in place. `FullText` breaks the string into normalised terms
/// that must all occur, and orders by descending relevance rank with
/// ascending id as the tie-break.
#[derive(Clone, Copy, PartialEq, Eq, Structural, Debug)]
pub enum SearchMode {
    Basic,
    FullText,
}

/// How the `end_due_date` filter bounds the due date.
///
/// The recorded behaviour of the service applies `due_date >= end_due_date`
/// (`AtLeast`), the same direction as `start_due_date`, which leaves the
/// pair unable to narrow a range; that looks unintended, but it is not for
/// this crate to silently invert it. The choice is therefore an explicit
/// configuration point: `AtLeast` reproduces the recorded behaviour,
/// `AtMost` applies the conventional inclusive upper bound.
#[derive(Clone, Copy, PartialEq, Eq, Structural, Debug)]
pub enum EndBound {
    AtLeast,
    AtMost,
}

/// Build-time configuration of the composer: the search strategy and the
/// reading of `end_due_date`.
#[derive(Clone, Copy, PartialEq, Eq, Structural, Debug)]
pub struct ComposerConfig {
    pub search_mode: SearchMode,
    pub end_bound: EndBound,
}

/// The filter bundle of a listing request, each member independently
/// optional. Timestamps are seconds since the Unix epoch.
#[derive(Debug)]
pub struct ListHomeworksParams {
    pub search: Option<String>,
    pub start_due_date: Option<i64>,
    pub end_due_date: Option<i64>,
    pub done: Option<bool>,
    pub subject_ids: Option<IdSequence>,
}

/// Mathematical model of a filter bundle.
pub ghost struct ListHomeworksParamsView {
    pub search: Option<Seq<char>>,
    pub start_due_date: Option<int>,
    pub end_due_date: Option<int>,
    pub done: Option<bool>,
    pub subject_ids: Option<Seq<u32>>,
}

impl View for ListHomeworksParams {
    type V = ListHomeworksParamsView;

    open spec fn view(&self) -> ListHomeworksParamsView {
        ListHomeworksParamsView {
            search: match self.search {
                Some(ref s) => Some(s@),
                None => None,
            },
            start_due_date: match self.start_due_date {
                Some(d) => Some(d as int),
                None => None,
            },
            end_due_date: match self.end_due_date {
                Some(d) => Some(d as int),
                None => None,
            },
            done: self.done,
            subject_ids: match self.subject_ids {
                Some(ref ids) => Some(ids@),
                None => None,
            },
        }
    }
}

/// A fully specified query plan: normalised predicates plus the ordering
/// choice. Evaluating a plan requires no further interpretation of the
/// request.
#[derive(Debug, PartialEq)]
pub struct QueryPlan {
    /// Search terms that must all occur in a row's text; `None` when no
    /// usable search was given.
    pub terms: Option<Vec<Vec<char>>>,
    /// Lower bound on the due date.
    pub start_due: Option<i64>,
    /// Second bound on the due date, read according to `end_is_upper`.
    pub end_due: Option<i64>,
    /// Whether `end_due` is an upper bound (`EndBound::AtMost`) or a second
    /// lower bound (`EndBound::AtLeast`, the recorded behaviour).
    pub end_is_upper: bool,
    /// Required value of the done flag.
    pub done: Option<bool>,
    /// Accepted subject ids; `None` when the filter is absent or empty.
    pub subject_ids: Option<Vec<i32>>,
    /// Order by descending relevance rank before ascending id.
    pub ranked: bool,
}

/// Mathematical model of a query plan.
pub ghost struct QueryPlanView {
    pub terms: Option<Seq<Seq<char>>>,
    pub start_due: Option<int>,
    pub end_due: Option<int>,
    pub end_is_upper: bool,
    pub done: Option<bool>,
    pub subject_ids: Option<Seq<int>>,
    pub ranked: bool,
}

impl View for QueryPlan {
    type V = QueryPlanView;

    open spec fn view(&self) -> QueryPlanView {
        QueryPlanView {
            terms: match self.terms {
                Some(ref ts) => Some(term_views(ts@)),
                None => None,
            },
            start_due: match self.start_due {
                Some(d) => Some(d as int),
                None => None,
            },
            end_due: match self.end_due {
                Some(d) => Some(d as int),
                None => None,
            },
            end_is_upper: self.end_is_upper,
            done: self.done,
            subject_ids: match self.subject_ids {
                Some(ref ids) => Some(ids@.map_values(|v: i32| v as int)),
                None => None,
            },
            ranked: self.ranked,
        }
    }
}

/// Is any character of `s` not whitespace? (Whitespace here is the ASCII
/// set: space, tab, line feed, vertical tab, form feed, carriage return.)
pub open spec fn spec_is_space(c: char) -> bool {
    c as u32 == 32 || (9 <= c as u32 && c as u32 <= 13)
}

#[verifier::when_used_as_spec(spec_is_space)]
pub fn is_space(c: char) -> (b: bool)
    ensures
        b == spec_is_space(c),
{
    let u = c as u32;
    u == 32 || (9 <= u && u <= 13)
}

pub open spec fn has_visible_char(s: Seq<char>) -> bool {
    exists|i: int| 0 <= i < s.len() && !spec_is_space(#[trigger] s[i])
}

/// The terms the composer derives from an optional search string, under
/// the given mode; `None` means the search filter is dropped.
pub open spec fn search_terms_of(search: Option<Seq<char>>, mode: SearchMode) -> Option<
    Seq<Seq<char>>,
> {
    match search {
        None => None,
        Some(text) => match mode {
            SearchMode::FullText => if terms_of(text).len() == 0 {
                None
            } else {
                Some(terms_of(text))
            },
            SearchMode::Basic => if has_visible_char(text) {
                Some(seq![folded(text)])
            } else {
                None
            },
        },
    }
}

/// What `compose` produces: every filter normalised, the ordering fixed.
pub open spec fn spec_compose(p: ListHomeworksParamsView, config: ComposerConfig) -> QueryPlanView {
    QueryPlanView {
        terms: search_terms_of(p.search, config.search_mode),
        start_due: p.start_due_date,
        end_due: p.end_due_date,
        end_is_upper: config.end_bound is AtMost,
        done: p.done,
        subject_ids: match p.subject_ids {
            Some(ids) => if ids.len() == 0 {
                None
            } else {
                Some(ids.map_values(|v: u32| v as i32 as int))
            },
            None => None,
        },
        ranked: config.search_mode is FullText && search_terms_of(
            p.search,
            config.search_mode,
        ) is Some,
    }
}

/// Case-folds a whole string into a vector of characters.
fn folded_chars(s: &str) -> (r: Vec<char>)
    ensures
        r@ == folded(s@),
{
    let cs = chars_of(s);
    let n = cs.len();
    let mut r: Vec<char> = Vec::new();
    let mut i: usize = 0;
    while i < n
        invariant
            i <= n,
            n == cs@.len(),
            cs@ == s@,
            r@.len() == i,
            forall|k: int| 0 <= k < i ==> r@[k] == spec_fold_char(s@[k]),
        decreases n - i,
    {
        r.push(fold_char(cs[i]));
        i += 1;
    }
    proof {
        assert(r@ =~= folded(s@));
    }
    r
}

/// Does `s` contain a character that is not whitespace?
fn contains_visible_char(s: &Vec<char>) -> (b: bool)
    ensures
        b == has_visible_char(s@),
{
    let n = s.len();
    let mut i: usize = 0;
    while i < n
        invariant
            i <= n,
            n == s@.len(),
            forall|k: int| 0 <= k < i ==> spec_is_space(#[trigger] s@[k]),
        decreases n - i,
    {
        if !is_space(s[i]) {
            return true;
        }
        i += 1;
    }
    false
}

/// The query composer: turns a bundle of optional filters into one plan,
/// without a code path per filter combination.
///
/// Degenerate filters are normalised away rather than rejected: an empty
/// `subject_ids` sequence and a search string without usable content (for
/// ranked search, one yielding no terms; for basic search, one that is
/// empty or all whitespace) both become "no filter". The plan is ranked
/// exactly when ranked search is configured and a usable search remains.
pub fn compose(params: ListHomeworksParams, config: &ComposerConfig) -> (plan: QueryPlan)
    ensures
        plan@ == spec_compose(params@, *config),
{
    let ghost pv = params@;
    let terms: Option<Vec<Vec<char>>> = match &params.search {
        Some(s) => {
            match config.search_mode {
                SearchMode::FullText => {
                    let ts = tokenize(s.as_str());
                    if ts.len() == 0 {
                        proof {
                            assert(terms_of(pv.search->0).len() == 0);
                        }
                        None
                    } else {
                        Some(ts)
                    }
                },
                SearchMode::Basic => {
                    let cs = chars_of(s.as_str());
                    if contains_visible_char(&cs) {
                        let f = folded_chars(s.as_str());
                        let mut one: Vec<Vec<char>> = Vec::new();
                        one.push(f);
                        proof {
                            assert(term_views(one@) =~= seq![folded(pv.search->0)]);
                        }
                        Some(one)
                    } else {
                        None
                    }
                },
            }
        },
        None => None,
    };
    let subject_ids: Option<Vec<i32>> = match params.subject_ids {
        Some(ids) => {
            if ids.is_empty() {
                None
            } else {
                let ghost idsv = ids@;
                let converted = ids.ids();
                proof {
                    assert(converted@.map_values(|v: i32| v as int) =~= idsv.map_values(
                        |v: u32| v as i32 as int,
                    ));
                }
                Some(converted)
            }
        },
        None => None,
    };
    let ranked = match config.search_mode {
        SearchMode::FullText => terms.is_some(),
        SearchMode::Basic => false,
    };
    let plan = QueryPlan {
        terms,
        start_due: params.start_due_date,
        end_due: params.end_due_date,
        end_is_upper: match config.end_bound {
            EndBound::AtMost => true,
            EndBound::AtLeast => false,
        },
        done: params.done,
        subject_ids,
        ranked,
    };
    plan
}

} // verus!
