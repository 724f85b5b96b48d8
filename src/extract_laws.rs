use vstd::prelude::*;
use crate::text::occurs_at;
use crate::extract::{
    Span, TestModel, annotation, extracted, first_brace, first_close, fn_close, fn_head,
    lemma_first_brace, lemma_first_close, lemma_match_bounds, match_at, model_of, scan,
    sig_tail, test_prefix,
};

verus! {

/// A test function as it is written out, from its `fn` line to its closing
/// line, with `inner` between the opening brace and the closing line.
pub open spec fn fn_text(name: Seq<char>, inner: Seq<char>) -> Seq<char> {
    fn_head() + name + sig_tail() + inner + fn_close()
}

/// A test function together with its attribute line.
pub open spec fn annotated_fn(name: Seq<char>, inner: Seq<char>) -> Seq<char> {
    annotation() + fn_text(name, inner)
}

/// The name holds no `{`, and the first closing line after the opening brace
/// is the function's own.
pub open spec fn well_shaped(name: Seq<char>, inner: Seq<char>) -> bool {
    &&& forall|k: int| 0 <= k < name.len() ==> name[k] != '{'
    &&& first_close(inner + fn_close(), 0) == inner.len()
}

/// Text in which no test function can start.
pub open spec fn plain_text(g: Seq<char>) -> bool {
    forall|p: int| !occurs_at(g, p, test_prefix())
}

/// `gaps[0]`, then the first test, then `gaps[1]`, and so on, ending with the
/// last gap.
pub open spec fn layout(gaps: Seq<Seq<char>>, tests: Seq<(Seq<char>, Seq<char>)>) -> Seq<char>
    decreases tests.len(),
{
    if tests.len() == 0 || gaps.len() == 0 {
        if gaps.len() == 0 { Seq::empty() } else { gaps[0] }
    } else {
        gaps[0] + annotated_fn(tests[0].0, tests[0].1) + layout(gaps.drop_first(), tests.drop_first())
    }
}

/// What extraction should yield for the tests of a layout.
pub open spec fn expected_models(tests: Seq<(Seq<char>, Seq<char>)>) -> Seq<TestModel> {
    tests.map_values(|x: (Seq<char>, Seq<char>)| TestModel { name: x.0, body: fn_text(x.0, x.1) })
}

proof fn lemma_first_brace_is(t: Seq<char>, i: int, j: int)
    requires
        0 <= i <= j < t.len(),
        t[j] == '{',
        forall|k: int| i <= k < j ==> t[k] != '{',
    ensures
        first_brace(t, i) == j,
    decreases j - i,
{
    if i < j {
        lemma_first_brace_is(t, i + 1, j);
    }
}

proof fn lemma_first_close_is(t: Seq<char>, i: int, j: int)
    requires
        0 <= i <= j,
        occurs_at(t, j, fn_close()),
        forall|k: int| i <= k < j ==> !occurs_at(t, k, fn_close()),
    ensures
        first_close(t, i) == j,
    decreases j - i,
{
    if i < j {
        lemma_first_close_is(t, i + 1, j);
    }
}

/// An occurrence inside a stretch of `t` is an occurrence inside that stretch.
proof fn lemma_occurs_within(t: Seq<char>, s: int, u: Seq<char>, k: int, w: Seq<char>)
    requires
        0 <= s,
        s + u.len() <= t.len(),
        t.subrange(s, s + u.len()) == u,
        0 <= k,
        k + w.len() <= u.len(),
    ensures
        occurs_at(t, s + k, w) == occurs_at(u, k, w),
{
    assert(t.subrange(s + k, s + k + w.len()) =~= u.subrange(k, k + w.len()));
}

/// A stretch of a stretch.
proof fn lemma_sub_within(t: Seq<char>, s: int, u: Seq<char>, i: int, j: int)
    requires
        0 <= s,
        s + u.len() <= t.len(),
        t.subrange(s, s + u.len()) == u,
        0 <= i <= j <= u.len(),
    ensures
        t.subrange(s + i, s + j) == u.subrange(i, j),
{
    assert forall|k: int| 0 <= k < j - i implies t.subrange(s + i, s + j)[k] == u.subrange(i, j)[k] by {
        assert(t[s + i + k] == t.subrange(s, s + u.len())[i + k]);
    }
    assert(t.subrange(s + i, s + j) =~= u.subrange(i, j));
}

/// Where the parts of `pre + g + u + rest` stand.
proof fn lemma_parts(pre: Seq<char>, g: Seq<char>, u: Seq<char>, rest: Seq<char>)
    ensures
        ({
            let t = pre + g + u + rest;
            let a = pre.len() as int;
            let b = a + g.len();
            &&& t.subrange(a, b) == g
            &&& t.subrange(b, b + u.len()) == u
            &&& t == (pre + g + u) + rest
            &&& (pre + g + u).len() == b + u.len()
        }),
{
    let t = pre + g + u + rest;
    let a = pre.len() as int;
    let b = a + g.len();
    assert(t.subrange(a, b) =~= g);
    assert(t.subrange(b, b + u.len()) =~= u);
}

/// A test function written out at position `s` of `t` is matched there.
proof fn lemma_match_written(t: Seq<char>, s: int, name: Seq<char>, inner: Seq<char>)
    requires
        well_shaped(name, inner),
        0 <= s,
        s + annotated_fn(name, inner).len() <= t.len(),
        t.subrange(s, s + annotated_fn(name, inner).len()) == annotated_fn(name, inner),
    ensures
        match_at(t, s) == Some(
            Span {
                start: s,
                name_start: s + 15,
                name_end: s + 15 + name.len(),
                end: s + annotated_fn(name, inner).len(),
            },
        ),
        model_of(t, match_at(t, s)->Some_0) == (TestModel { name, body: fn_text(name, inner) }),
{
    let u = annotated_fn(name, inner);
    let n = name.len() as int;
    let q = s + 15 + n + 3;
    assert(u =~= test_prefix() + name + sig_tail() + inner + fn_close());
    assert(t[s + 15 + n] == '(' && t[s + 16 + n] == ')' && t[s + 17 + n] == ' ' && t[q] == '{') by {
        assert(t[s + 15 + n] == u[15 + n]);
        assert(t[s + 16 + n] == u[16 + n]);
        assert(t[s + 17 + n] == u[17 + n]);
        assert(t[q] == u[18 + n]);
    }
    assert forall|k: int| s + 15 <= k < q implies t[k] != '{' by {
        assert(t[k] == u[k - s]);
        if k < s + 15 + n {
            assert(u[k - s] == name[k - s - 15]);
        }
    }
    lemma_first_brace_is(t, s + 15, q);
    lemma_occurs_within(t, s, u, 0, test_prefix());
    assert(u.subrange(0, 15) =~= test_prefix());
    lemma_occurs_within(t, s, u, 15 + n, sig_tail());
    assert(u.subrange(15 + n, 19 + n) =~= sig_tail());
    // the closing line
    let c = inner + fn_close();
    assert(u.subrange(19 + n, u.len() as int) =~= c);
    lemma_first_close(c, 0);
    assert forall|k: int| q + 1 <= k < q + 1 + inner.len() implies !occurs_at(t, k, fn_close()) by {
        assert(t.subrange(q + 1, q + 1 + c.len()) =~= c);
        lemma_occurs_within(t, q + 1, c, k - q - 1, fn_close());
    }
    assert(t.subrange(q + 1, q + 1 + c.len()) =~= c);
    lemma_occurs_within(t, q + 1, c, inner.len() as int, fn_close());
    lemma_first_close_is(t, q + 1, q + 1 + inner.len());
    lemma_sub_within(t, s, u, 15, 15 + n);
    assert(u.subrange(15, 15 + n) =~= name);
    lemma_sub_within(t, s, u, 8, u.len() as int);
    assert(u.subrange(8, u.len() as int) =~= fn_text(name, inner));
}

/// No test function starts at a position of a gap that is followed by a test
/// function or by the end of the text.
proof fn lemma_gap_no_match(t: Seq<char>, a: int, g: Seq<char>, p: int)
    requires
        plain_text(g),
        0 <= a <= p < a + g.len() <= t.len(),
        t.subrange(a, a + g.len()) == g,
        a + g.len() < t.len() ==> t[a + g.len()] == '#',
    ensures
        match_at(t, p) is None,
{
    let b = a + g.len();
    if occurs_at(t, p, test_prefix()) {
        if p + 15 <= b {
            lemma_occurs_within(t, a, g, p - a, test_prefix());
            assert(!occurs_at(g, p - a, test_prefix()));
        } else {
            assert(t.subrange(p, p + 15)[b - p] == t[b]);
            assert(test_prefix()[b - p] != '#');
        }
    }
}

/// Positions at which nothing matches can be skipped.
proof fn lemma_scan_skip(t: Seq<char>, a: int, b: int)
    requires
        0 <= a <= b <= t.len(),
        forall|p: int| a <= p < b ==> match_at(t, p) is None,
    ensures
        scan(t, a) == scan(t, b),
    decreases b - a,
{
    if a < b {
        lemma_scan_skip(t, a + 1, b);
    }
}

proof fn lemma_rest_shaped(gaps: Seq<Seq<char>>, tests: Seq<(Seq<char>, Seq<char>)>)
    requires
        tests.len() > 0,
        gaps.len() > 0,
        forall|i: int| 0 <= i < tests.len() ==> well_shaped(#[trigger] tests[i].0, tests[i].1),
        forall|i: int| 0 <= i < gaps.len() ==> plain_text(#[trigger] gaps[i]),
    ensures
        forall|i: int|
            0 <= i < tests.drop_first().len() ==> well_shaped(
                #[trigger] tests.drop_first()[i].0,
                tests.drop_first()[i].1,
            ),
        forall|i: int| 0 <= i < gaps.drop_first().len() ==> plain_text(#[trigger] gaps.drop_first()[i]),
{
    assert forall|i: int| 0 <= i < tests.drop_first().len() implies well_shaped(
        #[trigger] tests.drop_first()[i].0,
        tests.drop_first()[i].1,
    ) by {
        assert(well_shaped(tests[i + 1].0, tests[i + 1].1));
    }
    assert forall|i: int| 0 <= i < gaps.drop_first().len() implies plain_text(
        #[trigger] gaps.drop_first()[i],
    ) by {
        assert(plain_text(gaps[i + 1]));
    }
}

/// A gap and then a test function: the scan passes over the gap and finds the
/// function.
proof fn lemma_layout_step(pre: Seq<char>, g: Seq<char>, name: Seq<char>, inner: Seq<char>, rest: Seq<char>)
    requires
        plain_text(g),
        well_shaped(name, inner),
    ensures
        ({
            let t = pre + g + annotated_fn(name, inner) + rest;
            let b = pre.len() + g.len() as int;
            let c = b + annotated_fn(name, inner).len() as int;
            &&& t == (pre + g + annotated_fn(name, inner)) + rest
            &&& (pre + g + annotated_fn(name, inner)).len() == c
            &&& match_at(t, b) is Some
            &&& scan(t, pre.len() as int) == seq![match_at(t, b)->Some_0] + scan(t, c)
            &&& model_of(t, match_at(t, b)->Some_0) == (TestModel { name, body: fn_text(name, inner) })
        }),
{
    let u = annotated_fn(name, inner);
    let t = pre + g + u + rest;
    let a = pre.len() as int;
    let b = a + g.len();
    let c = b + u.len();
    lemma_parts(pre, g, u, rest);
    assert(t[b] == u[0]) by {
        assert(t.subrange(b, c)[0] == t[b]);
    }
    assert forall|p: int| a <= p < b implies match_at(t, p) is None by {
        lemma_gap_no_match(t, a, g, p);
    }
    lemma_scan_skip(t, a, b);
    lemma_match_written(t, b, name, inner);
}

#[verifier::rlimit(30)]
proof fn lemma_layout_from(
    pre: Seq<char>,
    gaps: Seq<Seq<char>>,
    tests: Seq<(Seq<char>, Seq<char>)>,
)
    requires
        gaps.len() == tests.len() + 1,
        forall|i: int| 0 <= i < tests.len() ==> well_shaped(#[trigger] tests[i].0, tests[i].1),
        forall|i: int| 0 <= i < gaps.len() ==> plain_text(#[trigger] gaps[i]),
    ensures
        scan(pre + layout(gaps, tests), pre.len() as int).map_values(
            |m: Span| model_of(pre + layout(gaps, tests), m),
        ) == expected_models(tests),
    decreases tests.len(),
{
    let t = pre + layout(gaps, tests);
    let a = pre.len() as int;
    let g = gaps[0];
    let b = a + g.len();
    assert(plain_text(gaps[0]));
    if tests.len() == 0 {
        assert(t == pre + g);
        assert(t.subrange(a, a + g.len()) =~= g);
        assert forall|p: int| a <= p < b implies match_at(t, p) is None by {
            lemma_gap_no_match(t, a, g, p);
        }
        lemma_scan_skip(t, a, b);
        assert(expected_models(tests) =~= Seq::<TestModel>::empty());
    } else {
        let name = tests[0].0;
        let inner = tests[0].1;
        assert(well_shaped(tests[0].0, tests[0].1));
        let u = annotated_fn(name, inner);
        let rest = layout(gaps.drop_first(), tests.drop_first());
        let pre2 = pre + g + u;
        let c = pre2.len() as int;
        assert(t == pre + g + u + rest);
        lemma_layout_step(pre, g, name, inner, rest);
        let m = match_at(t, b)->Some_0;
        lemma_rest_shaped(gaps, tests);
        lemma_layout_from(pre2, gaps.drop_first(), tests.drop_first());
        let f = |m: Span| model_of(t, m);
        assert((seq![m] + scan(t, c)).map_values(f) =~= seq![f(m)] + scan(t, c).map_values(f));
        assert(expected_models(tests) =~= seq![f(m)] + expected_models(tests.drop_first()));
    }
}

/// Every test function of a text made of test functions and text between them
/// in which none can start is extracted: as many entries as functions, in the
/// order in which they stand, each with the function's name and text.
/// A body that, with the function's own closing line, already holds a closing
/// line (one that ends in a line `    }`) is cut at that earlier line, so it is
/// not well shaped and is left out here.
pub proof fn lemma_extraction_complete(gaps: Seq<Seq<char>>, tests: Seq<(Seq<char>, Seq<char>)>)
    requires
        gaps.len() == tests.len() + 1,
        forall|i: int| 0 <= i < tests.len() ==> well_shaped(#[trigger] tests[i].0, tests[i].1),
        forall|i: int| 0 <= i < gaps.len() ==> plain_text(#[trigger] gaps[i]),
    ensures
        extracted(layout(gaps, tests)) == expected_models(tests),
        extracted(layout(gaps, tests)).len() == tests.len(),
        forall|i: int| 0 <= i < tests.len() ==> #[trigger] extracted(layout(gaps, tests))[i].name == tests[i].0,
{
    lemma_layout_from(Seq::empty(), gaps, tests);
    assert(Seq::<char>::empty() + layout(gaps, tests) =~= layout(gaps, tests));
}

/// Every span that the scan yields is the match at its own start.
proof fn lemma_scan_matches(t: Seq<char>, p: int, i: int)
    requires
        0 <= i < scan(t, p).len(),
    ensures
        match_at(t, scan(t, p)[i].start) == Some(scan(t, p)[i]),
    decreases t.len() - p,
{
    if 0 <= p < t.len() {
        match match_at(t, p) {
            Some(m) => {
                lemma_match_bounds(t, p);
                if i > 0 {
                    lemma_scan_matches(t, m.end, i - 1);
                }
            },
            None => {
                lemma_scan_matches(t, p + 1, i);
            },
        }
    }
}

/// A match is a well-shaped test function written out after its attribute.
proof fn lemma_match_written_out(t: Seq<char>, p: int)
    requires
        match_at(t, p) is Some,
    ensures
        ({
            let m = match_at(t, p)->Some_0;
            let name = model_of(t, m).name;
            let q = m.name_end + 3;
            let inner = t.subrange(q + 1, m.end - fn_close().len());
            &&& well_shaped(name, inner)
            &&& occurs_at(t, p, annotated_fn(name, inner))
            &&& model_of(t, m).body == fn_text(name, inner)
        }),
{
    let m = match_at(t, p)->Some_0;
    lemma_match_bounds(t, p);
    let ns = m.name_start;
    let q = m.name_end + 3;
    let e = m.end - 7;
    lemma_first_brace(t, ns);
    lemma_first_close(t, q + 1);
    let name = t.subrange(ns, q - 3);
    let inner = t.subrange(q + 1, e);
    let c = inner + fn_close();
    assert(t.subrange(q + 1, e + 7) =~= c);
    assert forall|k: int| 0 <= k < inner.len() implies !occurs_at(c, k, fn_close()) by {
        lemma_occurs_within(t, q + 1, c, k, fn_close());
    }
    lemma_occurs_within(t, q + 1, c, inner.len() as int, fn_close());
    lemma_first_close_is(c, 0, inner.len() as int);
    assert(t.subrange(p, m.end) =~= t.subrange(p, ns) + name + t.subrange(q - 3, q + 1) + inner
        + t.subrange(e, e + 7));
    assert(t.subrange(p, m.end) =~= annotated_fn(name, inner));
    assert(t.subrange(p + 8, m.end) =~= t.subrange(p + 8, ns) + name + t.subrange(q - 3, q + 1)
        + inner + t.subrange(e, e + 7));
    assert(t.subrange(p + 8, ns) =~= fn_head()) by {
        assert forall|k: int| 0 <= k < 7 implies t.subrange(p + 8, ns)[k] == fn_head()[k] by {
            assert(t.subrange(p + 8, ns)[k] == t.subrange(p, ns)[k + 8]);
        }
    }
    assert(t.subrange(p + 8, m.end) =~= fn_text(name, inner));
}

/// Nothing is extracted but a test function written out in full after its
/// attribute line: each entry is the text of a well-shaped function that
/// stands in the source right after `#[test]`, under its own name. A function
/// without the attribute, or of another shape, yields no entry.
pub proof fn lemma_extraction_sound(t: Seq<char>, i: int)
    requires
        0 <= i < extracted(t).len(),
    ensures
        exists|p: int, inner: Seq<char>|
            {
                &&& well_shaped(extracted(t)[i].name, inner)
                &&& occurs_at(t, p, annotated_fn(extracted(t)[i].name, inner))
                &&& extracted(t)[i].body == fn_text(extracted(t)[i].name, inner)
            },
{
    let m = scan(t, 0)[i];
    lemma_scan_matches(t, 0, i);
    lemma_match_written_out(t, m.start);
    let inner = t.subrange(m.name_end + 4, m.end - 7);
    assert(extracted(t)[i] == model_of(t, m));
    assert(well_shaped(extracted(t)[i].name, inner));
}

/// The positions at or after `p` where an attribute line followed by
/// `    fn ` stands: where a test function could start.
pub open spec fn annotation_count(t: Seq<char>, p: int) -> nat
    decreases t.len() - p,
{
    if p < 0 || p >= t.len() {
        0
    } else {
        (if occurs_at(t, p, test_prefix()) { 1nat } else { 0nat }) + annotation_count(t, p + 1)
    }
}

proof fn lemma_count_mono(t: Seq<char>, a: int, b: int)
    requires
        0 <= a <= b,
    ensures
        annotation_count(t, b) <= annotation_count(t, a),
    decreases b - a,
{
    if a < b {
        lemma_count_mono(t, a + 1, b);
    }
}

proof fn lemma_scan_count(t: Seq<char>, p: int)
    requires
        0 <= p,
    ensures
        scan(t, p).len() <= annotation_count(t, p),
    decreases t.len() - p,
{
    if p < t.len() {
        match match_at(t, p) {
            Some(m) => {
                lemma_match_bounds(t, p);
                lemma_scan_count(t, m.end);
                lemma_count_mono(t, p + 1, m.end);
            },
            None => {
                lemma_scan_count(t, p + 1);
            },
        }
    }
}

/// No more entries are extracted than there are places in the text where an
/// attribute line is followed by `    fn `.
pub proof fn lemma_extraction_bounded(t: Seq<char>)
    ensures
        extracted(t).len() <= annotation_count(t, 0),
{
    lemma_scan_count(t, 0);
}

} // verus!
