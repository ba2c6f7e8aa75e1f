//! Search-text normalisation, matching and ranking for the listing
//! composer.
//!
//! A search string is treated as literal text, never as query syntax. Under
//! ranked search it is broken into terms: maximal runs of ASCII letters and
//! digits, case-folded to lower case; every other character is a separator.
//! A term matches a row's text when it occurs as a contiguous substring of
//! the case-folded text. The relevance rank of a text is the number of
//! positions at which at least one term starts a match, so denser term
//! coverage ranks higher.

use vstd::prelude::*;
use vstd::string::*;

verus! {

/// ASCII letters and digits form terms; everything else separates them.
pub open spec fn spec_is_term_char(c: char) -> bool {
    (48 <= c as u32 && c as u32 <= 57) || (97 <= c as u32 && c as u32 <= 122) || (65 <= c as u32
        && c as u32 <= 90)
}

#[verifier::when_used_as_spec(spec_is_term_char)]
pub fn is_term_char(c: char) -> (b: bool)
    ensures
        b == spec_is_term_char(c),
{
    let u = c as u32;
    (48 <= u && u <= 57) || (97 <= u && u <= 122) || (65 <= u && u <= 90)
}

/// Case folding: ASCII upper-case letters map to lower case, every other
/// character is left alone.
pub open spec fn spec_fold_char(c: char) -> char {
    if 65 <= c as u32 && c as u32 <= 90 {
        ((c as u32 + 32) as u8) as char
    } else {
        c
    }
}

#[verifier::when_used_as_spec(spec_fold_char)]
pub fn fold_char(c: char) -> (r: char)
    ensures
        r == spec_fold_char(c),
{
    let u = c as u32;
    if 65 <= u && u <= 90 {
        ((u + 32) as u8) as char
    } else {
        c
    }
}

/// A text, case-folded character by character.
pub open spec fn folded(s: Seq<char>) -> Seq<char> {
    s.map_values(|c: char| spec_fold_char(c))
}

/// The sequence of views of a list of terms.
pub open spec fn term_views(ts: Seq<Vec<char>>) -> Seq<Seq<char>> {
    ts.map_values(|t: Vec<char>| t@)
}

/// One step of term extraction: `cur` is the (already folded) run of term
/// characters read so far, `acc` the finished terms.
pub open spec fn scan_terms(s: Seq<char>, cur: Seq<char>, acc: Seq<Seq<char>>) -> Seq<Seq<char>>
    decreases s.len(),
{
    if s.len() == 0 {
        if cur.len() == 0 {
            acc
        } else {
            acc.push(cur)
        }
    } else if spec_is_term_char(s[0]) {
        scan_terms(s.drop_first(), cur.push(spec_fold_char(s[0])), acc)
    } else if cur.len() == 0 {
        scan_terms(s.drop_first(), cur, acc)
    } else {
        scan_terms(s.drop_first(), Seq::<char>::empty(), acc.push(cur))
    }
}

/// The search terms of a text: maximal runs of term characters, folded.
pub open spec fn terms_of(s: Seq<char>) -> Seq<Seq<char>> {
    scan_terms(s, Seq::<char>::empty(), Seq::<Seq<char>>::empty())
}

/// The characters of a string, as a vector.
pub fn chars_of(s: &str) -> (r: Vec<char>)
    ensures
        r@ == s@,
{
    let n = s.unicode_len();
    let mut r: Vec<char> = Vec::new();
    let mut i: usize = 0;
    while i < n
        invariant
            i <= n,
            n == s@.len(),
            r@ == s@.subrange(0, i as int),
        decreases n - i,
    {
        r.push(s.get_char(i));
        proof {
            assert(r@ =~= s@.subrange(0, i + 1));
        }
        i += 1;
    }
    proof {
        assert(r@ =~= s@);
    }
    r
}

/// Extracts the search terms of `s`.
pub fn tokenize(s: &str) -> (terms: Vec<Vec<char>>)
    ensures
        term_views(terms@) == terms_of(s@),
{
    let cs = chars_of(s);
    let n = cs.len();
    let mut acc: Vec<Vec<char>> = Vec::new();
    let mut cur: Vec<char> = Vec::new();
    let mut i: usize = 0;
    proof {
        assert(s@.skip(0) =~= s@);
        assert(term_views(acc@) =~= Seq::<Seq<char>>::empty());
    }
    while i < n
        invariant
            i <= n,
            n == s@.len(),
            cs@ == s@,
            terms_of(s@) == scan_terms(s@.skip(i as int), cur@, term_views(acc@)),
        decreases n - i,
    {
        let c = cs[i];
        proof {
            assert(s@.skip(i as int)[0] == s@[i as int]);
            assert(s@.skip(i as int).drop_first() =~= s@.skip(i as int + 1));
        }
        if is_term_char(c) {
            cur.push(fold_char(c));
        } else if cur.len() > 0 {
            let ghost old_acc = acc@;
            let ghost old_cur = cur@;
            acc.push(cur);
            cur = Vec::new();
            proof {
                assert(term_views(acc@) =~= term_views(old_acc).push(old_cur));
            }
        }
        i += 1;
    }
    proof {
        assert(s@.skip(n as int) =~= Seq::<char>::empty());
    }
    if cur.len() > 0 {
        let ghost old_acc = acc@;
        let ghost old_cur = cur@;
        acc.push(cur);
        proof {
            assert(term_views(acc@) =~= term_views(old_acc).push(old_cur));
        }
    }
    acc
}

/// Term `term` matches `text` starting at position `i` (after folding).
pub open spec fn occurs_at(text: Seq<char>, term: Seq<char>, i: int) -> bool {
    &&& 0 <= i
    &&& i + term.len() <= text.len()
    &&& folded(text.subrange(i, i + term.len() as int)) == term
}

/// Term `term` occurs somewhere in `text` (after folding).
pub open spec fn occurs(text: Seq<char>, term: Seq<char>) -> bool {
    exists|i: int| occurs_at(text, term, i)
}

/// Does `term` match `text` at position `i`?
pub fn term_at(text: &Vec<char>, term: &Vec<char>, i: usize) -> (b: bool)
    ensures
        b == occurs_at(text@, term@, i as int),
{
    if term.len() > text.len() || i > text.len() - term.len() {
        return false;
    }
    let tlen = text.len();
    let m = term.len();
    let mut j: usize = 0;
    while j < m
        invariant
            j <= m,
            m == term@.len(),
            tlen == text@.len(),
            i + m <= tlen,
            forall|k: int| 0 <= k < j ==> spec_fold_char(text@[i + k]) == term@[k],
        decreases m - j,
    {
        if fold_char(text[i + j]) != term[j] {
            proof {
                let sub = folded(text@.subrange(i as int, i + m));
                assert(sub[j as int] == spec_fold_char(text@[i + j]));
            }
            return false;
        }
        j += 1;
    }
    proof {
        assert(folded(text@.subrange(i as int, i + m)) =~= term@);
    }
    true
}

/// Does `term` occur anywhere in `text`?
pub fn term_occurs(text: &Vec<char>, term: &Vec<char>) -> (b: bool)
    ensures
        b == occurs(text@, term@),
{
    if term.len() > text.len() {
        proof {
            assert(forall|i: int| !occurs_at(text@, term@, i));
        }
        return false;
    }
    if term.len() == 0 {
        proof {
            assert(folded(text@.subrange(0, 0)) =~= term@);
            assert(occurs_at(text@, term@, 0));
        }
        return true;
    }
    let tlen = text.len();
    let last = tlen - term.len();
    let mut i: usize = 0;
    while i <= last
        invariant
            i <= last + 1,
            tlen == text@.len(),
            last + 1 <= tlen,
            last == text@.len() - term@.len(),
            forall|k: int| 0 <= k < i ==> !occurs_at(text@, term@, k),
        decreases last - i + 1,
    {
        if term_at(text, term, i) {
            return true;
        }
        i += 1;
    }
    proof {
        assert(forall|k: int| k > last ==> !occurs_at(text@, term@, k));
    }
    false
}

/// Some term of `terms` matches `text` at position `i`.
pub open spec fn hit_at(text: Seq<char>, terms: Seq<Seq<char>>, i: int) -> bool {
    exists|k: int| 0 <= k < terms.len() && occurs_at(text, terms[k], i)
}

/// The number of positions in `[i, text.len())` at which some term starts a
/// match.
pub open spec fn hits_from(text: Seq<char>, terms: Seq<Seq<char>>, i: int) -> nat
    decreases text.len() - i,
{
    if i < 0 || i >= text.len() {
        0
    } else {
        (if hit_at(text, terms, i) {
            1nat
        } else {
            0nat
        }) + hits_from(text, terms, i + 1)
    }
}

/// The relevance rank of a row's text against a list of terms: the number
/// of match positions in the title plus those in the description.
pub open spec fn rank_of(terms: Seq<Seq<char>>, title: Seq<char>, description: Seq<char>) -> nat {
    hits_from(title, terms, 0) + hits_from(description, terms, 0)
}

/// Does some term match `text` at position `i`?
fn hit_at_exec(text: &Vec<char>, terms: &Vec<Vec<char>>, i: usize) -> (b: bool)
    ensures
        b == hit_at(text@, term_views(terms@), i as int),
{
    let n = terms.len();
    let mut k: usize = 0;
    while k < n
        invariant
            k <= n,
            n == terms@.len(),
            forall|q: int| 0 <= q < k ==> !occurs_at(text@, term_views(terms@)[q], i as int),
        decreases n - k,
    {
        if term_at(text, &terms[k], i) {
            proof {
                assert(term_views(terms@)[k as int] == terms@[k as int]@);
            }
            return true;
        }
        k += 1;
    }
    false
}

/// Counts the match positions of `terms` in `text`.
pub fn count_hits(text: &Vec<char>, terms: &Vec<Vec<char>>) -> (n: usize)
    ensures
        n == hits_from(text@, term_views(terms@), 0),
{
    let len = text.len();
    let mut count: usize = 0;
    let mut i: usize = 0;
    while i < len
        invariant
            i <= len,
            len == text@.len(),
            count <= i,
            count + hits_from(text@, term_views(terms@), i as int) == hits_from(
                text@,
                term_views(terms@),
                0,
            ),
        decreases len - i,
    {
        if hit_at_exec(text, terms, i) {
            count += 1;
        }
        i += 1;
    }
    count
}

/// Every term of `terms` occurs in `title` or in `description`: the
/// conjunctive bag-of-words match used by ranked search.
pub open spec fn all_terms_occur(terms: Seq<Seq<char>>, title: Seq<char>, description: Seq<
    char,
>) -> bool {
    forall|k: int|
        0 <= k < terms.len() ==> occurs(title, #[trigger] terms[k]) || occurs(
            description,
            terms[k],
        )
}

/// Does every term occur in the title or the description?
pub fn all_terms_occur_exec(terms: &Vec<Vec<char>>, title: &Vec<char>, description: &Vec<
    char,
>) -> (b: bool)
    ensures
        b == all_terms_occur(term_views(terms@), title@, description@),
{
    let n = terms.len();
    let mut k: usize = 0;
    while k < n
        invariant
            k <= n,
            n == terms@.len(),
            forall|q: int|
                0 <= q < k ==> occurs(title@, #[trigger] term_views(terms@)[q]) || occurs(
                    description@,
                    term_views(terms@)[q],
                ),
        decreases n - k,
    {
        let in_title = term_occurs(title, &terms[k]);
        if !in_title {
            let in_description = term_occurs(description, &terms[k]);
            if !in_description {
                proof {
                    assert(term_views(terms@)[k as int] == terms@[k as int]@);
                }
                return false;
            }
        }
        k += 1;
    }
    true
}

/// If a text consists of separator characters only, it yields no terms.
/// In particular an all-whitespace search string yields none.
pub proof fn lemma_no_term_chars_no_terms(s: Seq<char>)
    requires
        forall|i: int| 0 <= i < s.len() ==> !spec_is_term_char(s[i]),
    ensures
        terms_of(s).len() == 0,
{
    lemma_scan_terms_all_separators(s, Seq::<Seq<char>>::empty());
}

proof fn lemma_scan_terms_all_separators(s: Seq<char>, acc: Seq<Seq<char>>)
    requires
        forall|i: int| 0 <= i < s.len() ==> !spec_is_term_char(s[i]),
    ensures
        scan_terms(s, Seq::<char>::empty(), acc) == acc,
    decreases s.len(),
{
    if s.len() > 0 {
        assert(forall|i: int|
            0 <= i < s.drop_first().len() ==> !spec_is_term_char(#[trigger] s.drop_first()[i]));
        lemma_scan_terms_all_separators(s.drop_first(), acc);
    }
}

} // verus!
