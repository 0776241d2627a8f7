//! Character-sequence utilities: substring search with an exact
//! first-occurrence contract, and conversions between `&str`, `Vec<char>`
//! and `String`.

use vstd::prelude::*;
use vstd::std_specs::iter::IteratorSpec;

verus! {

/// True when the pattern `p` occurs in `t` at position `i`.
pub open spec fn occurs_at(t: Seq<char>, p: Seq<char>, i: int) -> bool {
    0 <= i && i + p.len() <= t.len() && t.subrange(i, i + p.len()) == p
}

/// Position of the first occurrence of `p` in `t` at or after `from`,
/// or `None` when `p` does not occur there.
pub open spec fn spec_find(t: Seq<char>, p: Seq<char>, from: nat) -> Option<int>
    decreases t.len() - from,
{
    if p.len() == 0 {
        if from <= t.len() {
            Some(from as int)
        } else {
            None
        }
    } else if from + p.len() > t.len() {
        None
    } else if occurs_at(t, p, from as int) {
        Some(from as int)
    } else {
        spec_find(t, p, (from + 1) as nat)
    }
}

proof fn lemma_find_some(t: Seq<char>, p: Seq<char>, from: nat, i: int)
    requires
        p.len() >= 1,
        from <= i,
        occurs_at(t, p, i),
        forall|j: int| from <= j < i ==> !occurs_at(t, p, j),
    ensures
        spec_find(t, p, from) == Some(i),
    decreases i - from,
{
    if from as int == i {
    } else {
        assert(!occurs_at(t, p, from as int));
        lemma_find_some(t, p, (from + 1) as nat, i);
    }
}

pub proof fn lemma_find_none(t: Seq<char>, p: Seq<char>, from: nat)
    requires
        p.len() >= 1,
        forall|j: int| from <= j ==> !occurs_at(t, p, j),
    ensures
        spec_find(t, p, from) == None::<int>,
    decreases t.len() - from,
{
    if from + p.len() > t.len() {
    } else {
        assert(!occurs_at(t, p, from as int));
        lemma_find_none(t, p, (from + 1) as nat);
    }
}

/// From a successful find: the position lies at or after `from` and the
/// pattern occurs there.
pub proof fn lemma_find_some_bounds(t: Seq<char>, p: Seq<char>, from: nat)
    requires
        p.len() >= 1,
        spec_find(t, p, from) is Some,
    ensures
        from <= spec_find(t, p, from)->0,
        occurs_at(t, p, spec_find(t, p, from)->0),
    decreases t.len() - from,
{
    if from + p.len() > t.len() {
    } else if occurs_at(t, p, from as int) {
    } else {
        lemma_find_some_bounds(t, p, (from + 1) as nat);
    }
}

/// A pattern that occurs at or after `from` is found.
pub proof fn lemma_find_finds(t: Seq<char>, p: Seq<char>, from: nat, i: int)
    requires
        p.len() >= 1,
        from <= i,
        occurs_at(t, p, i),
    ensures
        spec_find(t, p, from) is Some,
    decreases i - from,
{
    if occurs_at(t, p, from as int) {
    } else {
        assert(from as int != i);
        lemma_find_finds(t, p, (from + 1) as nat, i);
    }
}

/// Whether `pat` matches `text` starting at position `i`.
fn match_at(text: &Vec<char>, pat: &Vec<char>, i: usize) -> (r: bool)
    requires
        i + pat@.len() <= text@.len(),
    ensures
        r == occurs_at(text@, pat@, i as int),
{
    let n = text.len();
    let mut k: usize = 0;
    while k < pat.len()
        invariant
            n == text@.len(),
            i + pat@.len() <= text@.len(),
            k <= pat@.len(),
            forall|m: int| 0 <= m < k ==> text@[i + m] == pat@[m],
        decreases pat@.len() - k,
    {
        if text[i + k] != pat[k] {
            proof {
                assert(t_sub(text@, pat@, i as int)[k as int] != pat@[k as int]);
            }
            return false;
        }
        k += 1;
    }
    proof {
        assert(t_sub(text@, pat@, i as int) =~= pat@);
    }
    true
}

/// The slice of `t` that a match of `p` at `i` would cover.
spec fn t_sub(t: Seq<char>, p: Seq<char>, i: int) -> Seq<char> {
    t.subrange(i, i + p.len())
}

/// First occurrence of `pat` in `text` at or after `from`.
pub fn find_from(text: &Vec<char>, pat: &Vec<char>, from: usize) -> (r: Option<usize>)
    requires
        pat@.len() >= 1,
    ensures
        match r {
            Some(i) => from <= i && i + pat@.len() <= text@.len() && spec_find(
                text@,
                pat@,
                from as nat,
            ) == Some(i as int),
            None => spec_find(text@, pat@, from as nat) == None::<int>,
        },
{
    if text.len() < pat.len() {
        proof {
            lemma_find_none(text@, pat@, from as nat);
        }
        return None;
    }
    let n = text.len();
    let last = n - pat.len();
    let mut i: usize = from;
    while i <= last
        invariant
            pat@.len() >= 1,
            pat@.len() <= text@.len(),
            n == text@.len(),
            last == text@.len() - pat@.len(),
            from <= i,
            forall|j: int| from <= j < i ==> !occurs_at(text@, pat@, j),
        decreases text@.len() - i,
    {
        if match_at(text, pat, i) {
            proof {
                lemma_find_some(text@, pat@, from as nat, i as int);
            }
            return Some(i);
        }
        i += 1;
    }
    proof {
        assert(forall|j: int| from <= j ==> !occurs_at(text@, pat@, j));
        lemma_find_none(text@, pat@, from as nat);
    }
    None
}

/// Whether two character vectors hold the same characters.
pub fn chars_eq(a: &Vec<char>, b: &Vec<char>) -> (r: bool)
    ensures
        r == (a@ == b@),
{
    if a.len() != b.len() {
        return false;
    }
    let mut k: usize = 0;
    while k < a.len()
        invariant
            a@.len() == b@.len(),
            k <= a@.len(),
            forall|m: int| 0 <= m < k ==> a@[m] == b@[m],
        decreases a@.len() - k,
    {
        if a[k] != b[k] {
            return false;
        }
        k += 1;
    }
    proof {
        assert(a@ =~= b@);
    }
    true
}

/// The characters of `s`, one vector element per `char`.
pub fn str_to_chars(s: &str) -> (v: Vec<char>)
    ensures
        v@ == s@,
{
    broadcast use vstd::string::group_string_axioms;

    let mut it = s.chars();
    let mut v: Vec<char> = Vec::new();
    loop
        invariant
            it.obeys_prophetic_iter_laws(),
            it.decrease() is Some,
            v@ + it.remaining() == s@,
        decreases it.decrease()->0,
    {
        match it.next() {
            Some(c) => {
                v.push(c);
            },
            None => {
                proof {
                    assert(v@ =~= s@);
                }
                return v;
            },
        }
    }
}

/// Relies on `String`'s `FromIterator<char>` implementation: collecting
/// characters yields the string made of exactly those characters in order.
#[verifier::external_body]
pub fn chars_to_string(v: &Vec<char>) -> (s: String)
    ensures
        s@ == v@,
{
    v.iter().collect()
}

} // verus!
