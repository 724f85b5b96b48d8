use vstd::prelude::*;

verus! {

/// `w` stands in `t` at position `p`.
pub open spec fn occurs_at(t: Seq<char>, p: int, w: Seq<char>) -> bool {
    0 <= p && p + w.len() <= t.len() && t.subrange(p, p + w.len()) == w
}

/// The characters of a string, one element each.
pub fn chars_of(text: &str) -> (r: Vec<char>)
    ensures
        r@ == text@,
{
    let mut v: Vec<char> = Vec::new();
    for c in it: text.chars()
        invariant
            it.seq() == text@,
            v@ == it.seq().take(it.index() as int),
    {
        v.push(c);
    }
    v
}

/// Whether `w` stands in `t` at position `p`.
pub fn occurs(t: &Vec<char>, p: usize, w: &[char]) -> (r: bool)
    ensures
        r == occurs_at(t@, p as int, w@),
{
    if w.len() > t.len() || p > t.len() - w.len() {
        return false;
    }
    let n = t.len();
    let mut k: usize = 0;
    while k < w.len()
        invariant
            n == t@.len(),
            k <= w@.len(),
            p + w@.len() <= t@.len(),
            forall|j: int| 0 <= j < k ==> t@[p + j] == w@[j],
        decreases w@.len() - k,
    {
        assert(p + k < n);
        if t[p + k] != w[k] {
            assert(t@.subrange(p as int, p + w@.len())[k as int] != w@[k as int]);
            return false;
        }
        k = k + 1;
    }
    assert(t@.subrange(p as int, p + w@.len()) =~= w@);
    true
}

/// The first position at or after `i` where `w` stands; `t.len()` if it
/// stands nowhere there.
pub open spec fn first_occurrence(t: Seq<char>, w: Seq<char>, i: int) -> int
    decreases t.len() - i,
{
    if i < 0 || i >= t.len() || i + w.len() > t.len() {
        t.len() as int
    } else if occurs_at(t, i, w) {
        i
    } else {
        first_occurrence(t, w, i + 1)
    }
}

/// What `first_occurrence` finds: `w`, with no earlier occurrence from `i` on.
pub proof fn lemma_first_occurrence(t: Seq<char>, w: Seq<char>, i: int)
    requires
        0 <= i <= t.len(),
    ensures
        i <= first_occurrence(t, w, i) <= t.len(),
        first_occurrence(t, w, i) == t.len() || occurs_at(t, first_occurrence(t, w, i), w),
        forall|k: int| i <= k < first_occurrence(t, w, i) ==> !occurs_at(t, k, w),
    decreases t.len() - i,
{
    if i < t.len() && i + w.len() <= t.len() && !occurs_at(t, i, w) {
        lemma_first_occurrence(t, w, i + 1);
    }
}

/// The first position where `w` stands in `t`, or the length of `t`.
pub fn find(t: &Vec<char>, w: &[char]) -> (r: usize)
    ensures
        r == first_occurrence(t@, w@, 0),
{
    if w.len() > t.len() {
        return t.len();
    }
    let mut k: usize = 0;
    while k < t.len() && t.len() - k >= w.len() && !occurs(t, k, w)
        invariant
            k <= t@.len(),
            w@.len() <= t@.len(),
            first_occurrence(t@, w@, 0) == first_occurrence(t@, w@, k as int),
        decreases t@.len() - k,
    {
        k = k + 1;
    }
    if k >= t.len() || t.len() - k < w.len() {
        t.len()
    } else {
        k
    }
}

/// Whether two strings hold the same characters.
pub fn str_eq(a: &str, b: &str) -> (r: bool)
    ensures
        r == (a@ == b@),
{
    let x = a.to_owned();
    let y = b.to_owned();
    x == y
}

} // verus!
