use vstd::prelude::*;
use crate::text::{chars_of, occurs, occurs_at};

verus! {

/// The attribute line that marks a test function.
pub open spec fn annotation() -> Seq<char> {
    seq!['#', '[', 't', 'e', 's', 't', ']', '\n']
}

/// The start of a test function's line, at the indentation of a test module.
pub open spec fn fn_head() -> Seq<char> {
    seq![' ', ' ', ' ', ' ', 'f', 'n', ' ']
}

/// What separates the name from the body: an empty parameter list and the
/// opening brace.
pub open spec fn sig_tail() -> Seq<char> {
    seq!['(', ')', ' ', '{']
}

/// The line that closes a test function: a closing brace at the function's
/// indentation, alone on its line.
pub open spec fn fn_close() -> Seq<char> {
    seq!['\n', ' ', ' ', ' ', ' ', '}', '\n']
}

/// What a match starts with.
pub open spec fn test_prefix() -> Seq<char> {
    annotation() + fn_head()
}

/// The first position at or after `i` that holds `{`; `t.len()` if none does.
pub open spec fn first_brace(t: Seq<char>, i: int) -> int
    decreases t.len() - i,
{
    if i < 0 || i >= t.len() {
        t.len() as int
    } else if t[i] == '{' {
        i
    } else {
        first_brace(t, i + 1)
    }
}

/// The first position at or after `i` where the closing line stands; `t.len()`
/// if it stands nowhere there.
pub open spec fn first_close(t: Seq<char>, i: int) -> int
    decreases t.len() - i,
{
    if i < 0 || i + fn_close().len() > t.len() {
        t.len() as int
    } else if occurs_at(t, i, fn_close()) {
        i
    } else {
        first_close(t, i + 1)
    }
}

/// Where one test function was found: the match runs from `start` (the
/// attribute) to `end` (just past the closing line); the name lies in
/// `name_start..name_end`.
pub struct Span {
    pub start: int,
    pub name_start: int,
    pub name_end: int,
    pub end: int,
}

/// The test function that starts at `p`, if one does. Its name runs from after
/// `fn ` up to the `() {` that precedes the first `{`; its body runs to the
/// first closing line after that brace.
pub open spec fn match_at(t: Seq<char>, p: int) -> Option<Span> {
    let ns = p + test_prefix().len();
    let q = first_brace(t, ns);
    let e = first_close(t, q + 1);
    if occurs_at(t, p, test_prefix()) && q < t.len() && ns + 3 <= q && occurs_at(t, q - 3, sig_tail())
        && e + fn_close().len() <= t.len() {
        Some(Span { start: p, name_start: ns, name_end: q - 3, end: e + fn_close().len() })
    } else {
        None
    }
}

/// The test functions found from position `p` on: the leftmost match, then the
/// matches after its end, none overlapping.
pub open spec fn scan(t: Seq<char>, p: int) -> Seq<Span>
    decreases t.len() - p,
    via scan_decreases
{
    if p < 0 || p >= t.len() {
        Seq::empty()
    } else {
        match match_at(t, p) {
            Some(m) => seq![m] + scan(t, m.end),
            None => scan(t, p + 1),
        }
    }
}

#[via_fn]
proof fn scan_decreases(t: Seq<char>, p: int) {
    if 0 <= p < t.len() {
        if let Some(m) = match_at(t, p) {
            lemma_match_bounds(t, p);
        }
    }
}

/// What `first_brace` finds: a `{`, with none between `i` and it.
pub proof fn lemma_first_brace(t: Seq<char>, i: int)
    requires
        0 <= i <= t.len(),
    ensures
        i <= first_brace(t, i) <= t.len(),
        first_brace(t, i) < t.len() ==> t[first_brace(t, i)] == '{',
        forall|k: int| i <= k < first_brace(t, i) ==> t[k] != '{',
    decreases t.len() - i,
{
    if i < t.len() && t[i] != '{' {
        lemma_first_brace(t, i + 1);
    }
}

/// What `first_close` finds: the closing line, with none between `i` and it.
pub proof fn lemma_first_close(t: Seq<char>, i: int)
    requires
        0 <= i <= t.len(),
    ensures
        i <= first_close(t, i) <= t.len(),
        first_close(t, i) + fn_close().len() <= t.len() ==> occurs_at(t, first_close(t, i), fn_close()),
        forall|k: int| i <= k < first_close(t, i) ==> !occurs_at(t, k, fn_close()),
    decreases t.len() - i,
{
    if i + fn_close().len() <= t.len() && !occurs_at(t, i, fn_close()) {
        lemma_first_close(t, i + 1);
    } else if i + fn_close().len() > t.len() {
        assert forall|k: int| i <= k < first_close(t, i) implies !occurs_at(t, k, fn_close()) by {}
    }
}

/// A match lies inside the text and ends after it starts.
pub proof fn lemma_match_bounds(t: Seq<char>, p: int)
    requires
        match_at(t, p) is Some,
    ensures
        ({
            let m = match_at(t, p)->Some_0;
            &&& m.start == p
            &&& 0 <= p + test_prefix().len() == m.name_start <= m.name_end
            &&& m.name_end + sig_tail().len() < m.end <= t.len()
        }),
{
    let ns = p + test_prefix().len();
    lemma_first_brace(t, ns);
    lemma_first_close(t, first_brace(t, ns) + 1);
}

/// What a match yields: the function's name, and the function itself from
/// its `fn` line to its closing line.
pub struct TestModel {
    pub name: Seq<char>,
    pub body: Seq<char>,
}

/// The name and text of the test function that a match covers.
pub open spec fn model_of(t: Seq<char>, m: Span) -> TestModel {
    TestModel {
        name: t.subrange(m.name_start, m.name_end),
        body: t.subrange(m.start + annotation().len(), m.end),
    }
}

/// The tests that a source text holds, in the order in which they stand.
pub open spec fn extracted(t: Seq<char>) -> Seq<TestModel> {
    scan(t, 0).map_values(|m: Span| model_of(t, m))
}

/// One test function taken from a source file: its name and its text.
#[derive(Debug, PartialEq, Eq)]
pub struct ExtractedTest {
    pub name: String,
    pub body: String,
}

impl View for ExtractedTest {
    type V = TestModel;

    open spec fn view(&self) -> TestModel {
        TestModel { name: self.name@, body: self.body@ }
    }
}

/// The first position at or after `i` that holds `{`, or the length.
fn find_brace(t: &Vec<char>, i: usize) -> (r: usize)
    requires
        i <= t@.len(),
    ensures
        r == first_brace(t@, i as int),
{
    let mut k: usize = i;
    while k < t.len() && t[k] != '{'
        invariant
            i <= k <= t@.len(),
            first_brace(t@, i as int) == first_brace(t@, k as int),
        decreases t@.len() - k,
    {
        k = k + 1;
    }
    k
}

/// The first position at or after `i` where the closing line stands, or the
/// length.
fn find_close(t: &Vec<char>, i: usize, close: &[char]) -> (r: usize)
    requires
        i <= t@.len(),
        close@ == fn_close(),
    ensures
        r == first_close(t@, i as int),
{
    let mut k: usize = i;
    while t.len() - k >= 7 && !occurs(t, k, close)
        invariant
            i <= k <= t@.len(),
            close@ == fn_close(),
            first_close(t@, i as int) == first_close(t@, k as int),
        decreases t@.len() - k,
    {
        k = k + 1;
    }
    if t.len() - k < 7 {
        t.len()
    } else {
        k
    }
}

/// Takes every test function out of a source text, in the order in which they
/// stand. A test function is one of exactly the shape that `match_at` states:
/// the attribute line `#[test]`, then `    fn <name>() {`, then the body up to
/// the first line that is a closing brace at four spaces of indentation.
/// Anything of another shape is passed over.
pub fn extract_tests(text: &str) -> (r: Vec<ExtractedTest>)
    ensures
        r@.map_values(|e: ExtractedTest| e@) == extracted(text@),
{
    let t = chars_of(text);
    let prefix: [char; 15] = ['#', '[', 't', 'e', 's', 't', ']', '\n', ' ', ' ', ' ', ' ', 'f', 'n', ' '];
    let tail: [char; 4] = ['(', ')', ' ', '{'];
    let close: [char; 7] = ['\n', ' ', ' ', ' ', ' ', '}', '\n'];
    assert(prefix@ =~= test_prefix());
    assert(tail@ =~= sig_tail());
    assert(close@ =~= fn_close());
    let mut out: Vec<ExtractedTest> = Vec::new();
    let mut p: usize = 0;
    while p < t.len()
        invariant
            t@ == text@,
            prefix@ == test_prefix(),
            tail@ == sig_tail(),
            close@ == fn_close(),
            p <= t@.len(),
            out@.map_values(|e: ExtractedTest| e@) + scan(t@, p as int).map_values(
                |m: Span| model_of(t@, m),
            ) == extracted(t@),
        decreases t@.len() - p,
    {
        let ghost before = out@.map_values(|e: ExtractedTest| e@);
        let mut found = false;
        if occurs(&t, p, prefix.as_slice()) {
            let ns = p + 15;
            let q = find_brace(&t, ns);
            proof {
                lemma_first_brace(t@, ns as int);
            }
            if q < t.len() && q >= 3 && q - 3 >= ns && occurs(&t, q - 3, tail.as_slice()) {
                let e = find_close(&t, q + 1, close.as_slice());
                proof {
                    lemma_first_close(t@, q + 1);
                }
                if t.len() - e >= 7 {
                    proof {
                        lemma_match_bounds(t@, p as int);
                    }
                    let end = e + 7;
                    let name = text.substring_char(ns, q - 3).to_owned();
                    let body = text.substring_char(p + 8, end).to_owned();
                    let test = ExtractedTest { name, body };
                    proof {
                        let m = match_at(t@, p as int)->Some_0;
                        assert(test@ == model_of(t@, m));
                        assert(scan(t@, p as int) == seq![m] + scan(t@, end as int));
                        assert(out@.push(test).map_values(|e: ExtractedTest| e@) =~= before.push(test@));
                        assert((seq![m] + scan(t@, end as int)).map_values(|m: Span| model_of(t@, m))
                            =~= seq![test@] + scan(t@, end as int).map_values(|m: Span| model_of(t@, m)));
                    }
                    out.push(test);
                    p = end;
                    found = true;
                }
            }
        }
        if !found {
            assert(match_at(t@, p as int) is None);
            p = p + 1;
        }
    }
    assert(scan(t@, p as int) =~= Seq::<Span>::empty());
    out
}

} // verus!
