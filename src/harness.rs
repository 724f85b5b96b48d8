use vstd::prelude::*;
use crate::extract::{ExtractedTest, TestModel, extract_tests, extracted};
use crate::extract_laws::{layout, lemma_extraction_complete, plain_text, well_shaped};

verus! {

/// Each test's text, each after a line break, in order.
pub open spec fn bodies_text(tests: Seq<TestModel>) -> Seq<char>
    decreases tests.len(),
{
    if tests.len() == 0 {
        Seq::empty()
    } else {
        bodies_text(tests.drop_last()) + "\n"@ + tests.last().body
    }
}

/// The names of the tests, in order.
pub open spec fn names_of(tests: Seq<TestModel>) -> Seq<Seq<char>> {
    tests.map_values(|t: TestModel| t.name)
}

/// One row of the registry: the name as a string and the function it names.
pub open spec fn registry_row(name: Seq<char>) -> Seq<char> {
    "(\""@ + name + "\", "@ + name + "),\n"@
}

pub open spec fn registry_rows(names: Seq<Seq<char>>) -> Seq<char>
    decreases names.len(),
{
    if names.len() == 0 {
        Seq::empty()
    } else {
        registry_rows(names.drop_last()) + registry_row(names.last())
    }
}

/// The registry: a table with one row per test, in order.
pub open spec fn registry_text(names: Seq<Seq<char>>) -> Seq<char> {
    "\npub static TESTS: &'static [(&'static str, fn())] = &[\n"@ + registry_rows(names) + "];\n"@
}

/// The export shim, in a module of its own.
pub open spec fn export_text(shim: Seq<char>) -> Seq<char> {
    "pub mod export {\n"@ + shim + "}\n"@
}

/// The tests of several source files: those of the first file, then those of
/// the second, and so on.
pub open spec fn tests_of_all(sources: Seq<Seq<char>>) -> Seq<TestModel>
    decreases sources.len(),
{
    if sources.len() == 0 {
        Seq::empty()
    } else {
        tests_of_all(sources.drop_last()) + extracted(sources.last())
    }
}

/// The harness unit: the prelude, each test, the registry, the export shim.
pub open spec fn unit_text(prelude: Seq<char>, sources: Seq<Seq<char>>, shim: Seq<char>) -> Seq<char> {
    let tests = tests_of_all(sources);
    prelude + bodies_text(tests) + registry_text(names_of(tests)) + export_text(shim)
}

/// The harness unit while it is being built: the text so far and the names
/// of the tests it holds.
pub struct ModuleModel {
    pub output: Seq<char>,
    pub names: Seq<Seq<char>>,
}

/// Collects test functions from source files into one harness unit.
pub struct TestModule {
    output: String,
    test_names: Vec<String>,
}

impl View for TestModule {
    type V = ModuleModel;

    closed spec fn view(&self) -> ModuleModel {
        ModuleModel { output: self.output@, names: self.test_names@.map_values(|n: String| n@) }
    }
}

impl TestModule {
    /// An empty harness that starts with the given prelude.
    pub fn new(prelude: &str) -> (r: TestModule)
        ensures
            r@.output == prelude@,
            r@.names == Seq::<Seq<char>>::empty(),
    {
        let r = TestModule { output: prelude.to_owned(), test_names: Vec::new() };
        assert(r@.names =~= Seq::<Seq<char>>::empty());
        r
    }

    /// Adds the test functions of one source file, in the order in which they
    /// stand there.
    pub fn add_tests(&mut self, src_file: &str)
        ensures
            final(self)@.output == old(self)@.output + bodies_text(extracted(src_file@)),
            final(self)@.names == old(self)@.names + names_of(extracted(src_file@)),
    {
        let tests = extract_tests(src_file);
        let ghost models = tests@.map_values(|e: ExtractedTest| e@);
        let ghost out0 = self@.output;
        let ghost names0 = self@.names;
        let mut i: usize = 0;
        while i < tests.len()
            invariant
                i <= tests@.len(),
                models == tests@.map_values(|e: ExtractedTest| e@),
                self@.output == out0 + bodies_text(models.take(i as int)),
                self@.names == names0 + names_of(models.take(i as int)),
            decreases tests@.len() - i,
        {
            let test = &tests[i];
            let ghost names_before = self.test_names@;
            let ghost out_before = self@.output;
            self.output.append("\n");
            self.output.append(test.body.as_str());
            self.test_names.push(test.name.clone());
            proof {
                let done = models.take(i as int);
                let next = models.take(i + 1);
                assert(next.drop_last() =~= done);
                assert(next.last() == test@);
                assert(self@.output =~= out0 + bodies_text(next));
                assert(self.test_names@ == names_before.push(test.name));
                assert(self.test_names@.map_values(|n: String| n@) =~= names_before.map_values(
                    |n: String| n@,
                ).push(test.name@));
                assert(names_of(next) =~= names_of(done).push(test.name@));
                assert(self@.names =~= names0 + names_of(next));
            }
            i = i + 1;
        }
        proof {
            assert(models.take(i as int) =~= models);
        }
    }

    /// Ends the harness: the registry of every test added, in order, then the
    /// export shim.
    pub fn finish(self, export_shim: &str) -> (r: String)
        ensures
            r@ == self@.output + registry_text(self@.names) + export_text(export_shim@),
    {
        let ghost names = self@.names;
        let mut output = self.output;
        let ghost out0 = output@;
        output.append("\npub static TESTS: &'static [(&'static str, fn())] = &[\n");
        let ghost head = output@;
        let mut i: usize = 0;
        while i < self.test_names.len()
            invariant
                i <= self.test_names@.len(),
                names == self.test_names@.map_values(|n: String| n@),
                output@ == head + registry_rows(names.take(i as int)),
            decreases self.test_names@.len() - i,
        {
            let name = self.test_names[i].as_str();
            output.append("(\"");
            output.append(name);
            output.append("\", ");
            output.append(name);
            output.append("),\n");
            proof {
                let next = names.take(i + 1);
                assert(next.drop_last() =~= names.take(i as int));
                assert(next.last() == name@);
                assert(output@ =~= head + registry_rows(next));
            }
            i = i + 1;
        }
        proof {
            assert(names.take(i as int) =~= names);
        }
        output.append("];\n");
        output.append("pub mod export {\n");
        output.append(export_shim);
        output.append("}\n");
        assert(output@ =~= out0 + registry_text(names) + export_text(export_shim@));
        output
    }

    /// A harness that starts with the prelude and holds the test functions of
    /// each source, file by file.
    pub fn from_sources(prelude: &str, sources: &[String]) -> (r: TestModule)
        ensures
            r@.output == prelude@ + bodies_text(tests_of_all(sources@.map_values(|s: String| s@))),
            r@.names == names_of(tests_of_all(sources@.map_values(|s: String| s@))),
    {
        let ghost srcs = sources@.map_values(|s: String| s@);
        let mut module = TestModule::new(prelude);
        let mut i: usize = 0;
        while i < sources.len()
            invariant
                i <= sources@.len(),
                srcs == sources@.map_values(|s: String| s@),
                module@.output == prelude@ + bodies_text(tests_of_all(srcs.take(i as int))),
                module@.names == names_of(tests_of_all(srcs.take(i as int))),
            decreases sources@.len() - i,
        {
            module.add_tests(sources[i].as_str());
            proof {
                let done = srcs.take(i as int);
                let next = srcs.take(i + 1);
                assert(next.drop_last() =~= done);
                assert(next.last() == sources@[i as int]@);
                lemma_bodies_concat(tests_of_all(done), extracted(next.last()));
                assert(names_of(tests_of_all(next)) =~= names_of(tests_of_all(done)) + names_of(
                    extracted(next.last()),
                ));
            }
            i = i + 1;
        }
        proof {
            assert(srcs.take(i as int) =~= srcs);
        }
        module
    }
}

/// The text of the tests of two lists, one after the other.
pub proof fn lemma_bodies_concat(a: Seq<TestModel>, b: Seq<TestModel>)
    ensures
        bodies_text(a + b) == bodies_text(a) + bodies_text(b),
    decreases b.len(),
{
    if b.len() == 0 {
        assert(a + b =~= a);
        assert(bodies_text(a) + bodies_text(b) =~= bodies_text(a));
    } else {
        assert((a + b).drop_last() =~= a + b.drop_last());
        lemma_bodies_concat(a, b.drop_last());
        assert(bodies_text(a + b) =~= bodies_text(a) + bodies_text(b));
    }
}

/// Builds the harness unit from a prelude, the text of each source file in
/// the order in which the files were found, and the export shim: the prelude,
/// each test function, the registry of their names, the shim.
pub fn harness_unit(prelude: &str, sources: &[String], export_shim: &str) -> (r: String)
    ensures
        r@ == unit_text(prelude@, sources@.map_values(|s: String| s@), export_shim@),
{
    let module = TestModule::from_sources(prelude, sources);
    module.finish(export_shim)
}

/// Assembling twice from the same prelude, source texts and shim gives the
/// same unit, character for character: `harness_unit` states its result as a
/// function of those inputs alone.
pub proof fn lemma_assembly_idempotent(
    prelude: Seq<char>,
    sources: Seq<Seq<char>>,
    shim: Seq<char>,
    first: Seq<char>,
    second: Seq<char>,
)
    requires
        first == unit_text(prelude, sources, shim),
        second == unit_text(prelude, sources, shim),
    ensures
        first == second,
{
}

/// Three source files: the first holds the tests `foo` then `bar`, the
/// second none, the third `baz`, each written out in full between text in
/// which no test can start. Their registry is `foo`, `bar`, `baz`, in that
/// order.
pub proof fn lemma_three_files(
    a_gaps: Seq<Seq<char>>,
    foo_inner: Seq<char>,
    bar_inner: Seq<char>,
    b: Seq<char>,
    c_gaps: Seq<Seq<char>>,
    baz_inner: Seq<char>,
)
    requires
        a_gaps.len() == 3,
        c_gaps.len() == 2,
        forall|i: int| 0 <= i < 3 ==> plain_text(#[trigger] a_gaps[i]),
        forall|i: int| 0 <= i < 2 ==> plain_text(#[trigger] c_gaps[i]),
        plain_text(b),
        well_shaped(seq!['f', 'o', 'o'], foo_inner),
        well_shaped(seq!['b', 'a', 'r'], bar_inner),
        well_shaped(seq!['b', 'a', 'z'], baz_inner),
    ensures
        ({
            let files = seq![
                layout(a_gaps, seq![(seq!['f', 'o', 'o'], foo_inner), (seq!['b', 'a', 'r'], bar_inner)]),
                layout(seq![b], Seq::empty()),
                layout(c_gaps, seq![(seq!['b', 'a', 'z'], baz_inner)]),
            ];
            names_of(tests_of_all(files)) == seq![
                seq!['f', 'o', 'o'],
                seq!['b', 'a', 'r'],
                seq!['b', 'a', 'z'],
            ]
        }),
{
    let foo = seq!['f', 'o', 'o'];
    let bar = seq!['b', 'a', 'r'];
    let baz = seq!['b', 'a', 'z'];
    let a_tests = seq![(foo, foo_inner), (bar, bar_inner)];
    let b_gaps = seq![b];
    let b_tests = Seq::<(Seq<char>, Seq<char>)>::empty();
    let c_tests = seq![(baz, baz_inner)];
    let fa = layout(a_gaps, a_tests);
    let fb = layout(b_gaps, b_tests);
    let fc = layout(c_gaps, c_tests);
    assert forall|i: int| 0 <= i < a_tests.len() implies well_shaped(#[trigger] a_tests[i].0, a_tests[i].1) by {
        if i == 1 {
            assert(a_tests[1] == (bar, bar_inner));
        }
    }
    assert forall|i: int| 0 <= i < b_gaps.len() implies plain_text(#[trigger] b_gaps[i]) by {}
    assert forall|i: int| 0 <= i < c_tests.len() implies well_shaped(#[trigger] c_tests[i].0, c_tests[i].1) by {}
    lemma_extraction_complete(a_gaps, a_tests);
    lemma_extraction_complete(b_gaps, b_tests);
    lemma_extraction_complete(c_gaps, c_tests);
    let files = seq![fa, fb, fc];
    assert(files.drop_last() =~= seq![fa, fb]);
    assert(seq![fa, fb].drop_last() =~= seq![fa]);
    assert(seq![fa].drop_last() =~= Seq::<Seq<char>>::empty());
    assert(tests_of_all(Seq::<Seq<char>>::empty()) == Seq::<TestModel>::empty());
    assert(tests_of_all(seq![fa]) =~= extracted(fa));
    let all = extracted(fa) + extracted(fb) + extracted(fc);
    assert(seq![fa, fb].last() == fb);
    assert(files.last() == fc);
    assert(tests_of_all(seq![fa, fb]) == tests_of_all(seq![fa]) + extracted(fb));
    assert(tests_of_all(files) == tests_of_all(seq![fa, fb]) + extracted(fc));
    assert(tests_of_all(files) =~= all);
    assert(names_of(all) =~= seq![foo, bar, baz]) by {
        assert(all[0] == extracted(fa)[0]);
        assert(all[1] == extracted(fa)[1]);
        assert(all[2] == extracted(fc)[0]);
    }
}

} // verus!
