use vstd::prelude::*;
use crate::error::BuildError;
use crate::origin::{DependencySource, SourceModel};

verus! {

/// A dependency of the harness package.
#[derive(Debug, PartialEq, Eq)]
pub struct Dependency {
    pub name: String,
    pub source: DependencySource,
    pub features: Vec<String>,
}

/// A dependency as the contracts see it.
pub struct DepModel {
    pub name: Seq<char>,
    pub source: SourceModel,
    pub features: Seq<Seq<char>>,
}

impl View for Dependency {
    type V = DepModel;

    open spec fn view(&self) -> DepModel {
        DepModel {
            name: self.name@,
            source: self.source@,
            features: self.features@.map_values(|f: String| f@),
        }
    }
}

/// The dependencies as the contracts see them.
pub open spec fn deps_view(deps: Seq<Dependency>) -> Seq<DepModel> {
    deps.map_values(|d: Dependency| d@)
}

/// `toml_string(s)` is `s` written as one TOML string value, quoted and
/// escaped as the toml crate writes it.
pub uninterp spec fn toml_string(s: Seq<char>) -> Seq<char>;

/// A character that toml writes as itself between double quotes: anything
/// but `"`, `\` and the control characters, tab included.
pub open spec fn plain_char(c: char) -> bool {
    c != '"' && c != '\\' && ' ' <= c && c != '\x7f'
}

pub open spec fn plain_string(s: Seq<char>) -> bool {
    forall|k: int| 0 <= k < s.len() ==> plain_char(#[trigger] s[k])
}

/// Relies on the toml crate's `Display` for `toml::Value::String`, which writes
/// the string as one TOML string value; a string of plain characters it
/// writes as a basic string, between double quotes and unchanged.
#[verifier::external_body]
fn toml_quote(s: &str) -> (r: String)
    ensures
        r@ == toml_string(s@),
        plain_string(s@) ==> r@ == seq!['"'] + s@ + seq!['"'],
{
    toml::Value::String(s.to_owned()).to_string()
}

/// The fixed sections: the harness package and its static library, then the
/// header of the dependency table.
pub open spec fn header_text() -> Seq<char> {
    "[package]\nname = \"tests-ios\"\nversion = \"0.0.0\"\n\n[lib]\nname = \"tests_ios\"\npath = \"lib.rs\"\ncrate-type = [\"staticlib\"]\n\n[dependencies]\n"@
}

/// A character that a bare TOML key may hold.
pub open spec fn bare_char(c: char) -> bool {
    ('A' <= c && c <= 'Z') || ('a' <= c && c <= 'z') || ('0' <= c && c <= '9') || c == '_' || c == '-'
}

pub open spec fn bare_key(name: Seq<char>) -> bool {
    name.len() > 0 && forall|k: int| 0 <= k < name.len() ==> bare_char(#[trigger] name[k])
}

/// A key as it is written: bare where TOML allows, quoted otherwise.
pub open spec fn key_text(name: Seq<char>) -> Seq<char> {
    if bare_key(name) {
        name
    } else {
        seq!['"'] + name + seq!['"']
    }
}

pub open spec fn source_text(s: SourceModel) -> Seq<char> {
    match s {
        SourceModel::Local(p) => "path = "@ + toml_string(p),
        SourceModel::Remote(v) => "version = "@ + toml_string(v),
    }
}

/// The items of a list of strings, separated by `, `.
pub open spec fn list_text(items: Seq<Seq<char>>) -> Seq<char>
    decreases items.len(),
{
    if items.len() == 0 {
        Seq::empty()
    } else if items.len() == 1 {
        toml_string(items[0])
    } else {
        list_text(items.drop_last()) + ", "@ + toml_string(items.last())
    }
}

pub open spec fn features_text(features: Seq<Seq<char>>) -> Seq<char> {
    if features.len() == 0 {
        Seq::empty()
    } else {
        ", features = ["@ + list_text(features) + "]"@
    }
}

/// One line of the dependency table: the name, then an inline table with the
/// path or the version, and the features where there are any.
pub open spec fn dep_line(d: DepModel) -> Seq<char> {
    key_text(d.name) + " = { "@ + source_text(d.source) + features_text(d.features) + " }\n"@
}

pub open spec fn deps_text(deps: Seq<DepModel>) -> Seq<char>
    decreases deps.len(),
{
    if deps.len() == 0 {
        Seq::empty()
    } else {
        deps_text(deps.drop_last()) + dep_line(deps.last())
    }
}

/// The position of the first name that repeats an earlier one, if any.
pub open spec fn first_repeat(names: Seq<Seq<char>>) -> Option<int>
    decreases names.len(),
{
    if names.len() == 0 {
        None
    } else {
        match first_repeat(names.drop_last()) {
            Some(j) => Some(j),
            None => if names.drop_last().contains(names.last()) {
                Some(names.len() - 1)
            } else {
                None
            },
        }
    }
}

/// The position of the first name that is not plain; the length if all are.
pub open spec fn first_unplain(names: Seq<Seq<char>>) -> int
    decreases names.len(),
{
    if names.len() == 0 {
        0
    } else if !plain_string(names[0]) {
        0
    } else {
        1 + first_unplain(names.drop_first())
    }
}

pub proof fn lemma_first_unplain(names: Seq<Seq<char>>)
    ensures
        0 <= first_unplain(names) <= names.len(),
        first_unplain(names) < names.len() ==> !plain_string(names[first_unplain(names)]),
        forall|k: int| 0 <= k < first_unplain(names) ==> plain_string(#[trigger] names[k]),
    decreases names.len(),
{
    if names.len() > 0 && plain_string(names[0]) {
        lemma_first_unplain(names.drop_first());
        assert forall|k: int| 0 <= k < first_unplain(names) implies plain_string(#[trigger] names[k]) by {
            if k > 0 {
                assert(names[k] == names.drop_first()[k - 1]);
            }
        }
    }
}

pub open spec fn distinct_names(deps: Seq<DepModel>) -> bool {
    forall|i: int, j: int| 0 <= i < j < deps.len() ==> deps[i].name != deps[j].name
}

/// The manifest of the harness package: the fixed package and library
/// sections, and a dependency table that holds the original crate and the
/// test-only dependencies that were resolved, each name once.
pub struct Config {
    crate_dep: Dependency,
    dev_deps: Vec<Dependency>,
}

impl Config {
    /// All dependencies: the original crate first, then the test-only ones.
    pub closed spec fn deps(&self) -> Seq<DepModel> {
        seq![self.crate_dep@] + deps_view(self.dev_deps@)
    }

    #[verifier::type_invariant]
    pub closed spec fn wf(&self) -> bool {
        &&& distinct_names(self.deps())
        &&& forall|k: int| 0 <= k < self.deps().len() ==> plain_string(#[trigger] self.deps()[k].name)
    }

    /// Composes the manifest from the original crate and the resolved
    /// test-only dependencies. Two dependencies with one name are refused,
    /// naming the first that repeats an earlier one: neither is dropped.
    pub fn new(crate_dep: Dependency, dev_deps: Vec<Dependency>) -> (r: Result<Config, BuildError>)
        ensures
            ({
                let all = seq![crate_dep] + dev_deps@;
                let names = deps_view(all).map_values(|d: DepModel| d.name);
                if first_unplain(names) < names.len() {
                    r == Err::<Config, BuildError>(
                        BuildError::UnsupportedName(all[first_unplain(names)].name),
                    )
                } else {
                    match first_repeat(names) {
                        Some(j) => r == Err::<Config, BuildError>(
                            BuildError::DuplicateDependency(all[j].name),
                        ),
                        None => r matches Ok(c) && c.deps() == deps_view(all) && c.wf(),
                    }
                }
            }),
    {
        let ghost all = seq![crate_dep] + dev_deps@;
        let ghost names = deps_view(all).map_values(|d: DepModel| d.name);
        let mut keys: Vec<String> = Vec::new();
        keys.push(crate_dep.name.clone());
        let mut i: usize = 0;
        while i < dev_deps.len()
            invariant
                i <= dev_deps@.len(),
                all == seq![crate_dep] + dev_deps@,
                keys@.len() == i + 1,
                forall|k: int| 0 <= k <= i ==> #[trigger] keys@[k] == all[k].name,
            decreases dev_deps@.len() - i,
        {
            keys.push(dev_deps[i].name.clone());
            i = i + 1;
        }
        assert(names.len() == keys@.len());
        assert forall|m: int| 0 <= m < names.len() implies names[m] == #[trigger] keys@[m]@ by {
            assert(keys@[m] == all[m].name);
        }
        proof {
            lemma_first_unplain(names);
        }
        let mut u: usize = 0;
        while u < keys.len()
            invariant
                u <= keys@.len() == names.len(),
                all == seq![crate_dep] + dev_deps@,
                names == deps_view(all).map_values(|d: DepModel| d.name),
                forall|m: int| 0 <= m < keys@.len() ==> #[trigger] keys@[m] == all[m].name,
                forall|m: int| 0 <= m < names.len() ==> names[m] == #[trigger] keys@[m]@,
                forall|m: int| 0 <= m < u ==> plain_string(#[trigger] names[m]),
                0 <= first_unplain(names) <= names.len(),
                first_unplain(names) < names.len() ==> !plain_string(names[first_unplain(names)]),
                forall|k: int| 0 <= k < first_unplain(names) ==> plain_string(#[trigger] names[k]),
            decreases keys@.len() - u,
        {
            if !is_plain(keys[u].as_str()) {
                assert(first_unplain(names) == u);
                return Err(BuildError::UnsupportedName(keys[u].clone()));
            }
            u = u + 1;
        }
        assert(first_unplain(names) == names.len());
        let mut j: usize = 1;
        assert(first_repeat(names.take(1)) is None) by {
            let e = names.take(1).drop_last();
            assert(e =~= Seq::<Seq<char>>::empty());
            assert(first_repeat(e) is None);
            assert(!e.contains(names.take(1).last()));
        }
        while j < keys.len()
            invariant
                1 <= j <= keys@.len() == names.len(),
                names == deps_view(all).map_values(|d: DepModel| d.name),
                all == seq![crate_dep] + dev_deps@,
                forall|k: int| 0 <= k < keys@.len() ==> #[trigger] keys@[k] == all[k].name,
                forall|m: int| 0 <= m < names.len() ==> names[m] == #[trigger] keys@[m]@,
                first_repeat(names.take(j as int)) is None,
                first_unplain(names) == names.len(),
            decreases keys@.len() - j,
        {
            let mut k: usize = 0;
            while k < j
                invariant
                    k <= j < keys@.len() == names.len(),
                    names == deps_view(all).map_values(|d: DepModel| d.name),
                    all == seq![crate_dep] + dev_deps@,
                    forall|m: int| 0 <= m < keys@.len() ==> #[trigger] keys@[m] == all[m].name,
                    forall|m: int| 0 <= m < names.len() ==> names[m] == #[trigger] keys@[m]@,
                    forall|m: int| 0 <= m < k ==> names[m] != names[j as int],
                    first_repeat(names.take(j as int)) is None,
                    first_unplain(names) == names.len(),
                decreases j - k,
            {
                if keys[k] == keys[j] {
                    proof {
                        let pre = names.take(j + 1);
                        assert(pre.drop_last() =~= names.take(j as int));
                        assert(pre.drop_last()[k as int] == pre.last());
                        assert(first_repeat(pre.drop_last()) is None);
                        assert(pre.drop_last().contains(pre.last()));
                        assert(first_repeat(pre) == Some(j as int));
                        lemma_first_repeat_prefix(names, j + 1);
                    }
                    return Err(BuildError::DuplicateDependency(keys[j].clone()));
                }
                k = k + 1;
            }
            proof {
                let pre = names.take(j + 1);
                assert(pre.drop_last() =~= names.take(j as int));
                assert(!pre.drop_last().contains(pre.last()));
            }
            j = j + 1;
        }
        proof {
            assert(names.take(j as int) =~= names);
            lemma_no_repeat_distinct(deps_view(all));
        }
        assert forall|k: int| 0 <= k < deps_view(all).len() implies plain_string(
            #[trigger] deps_view(all)[k].name,
        ) by {
            assert(names[k] == deps_view(all)[k].name);
        }
        assert(seq![crate_dep@] + deps_view(dev_deps@) =~= deps_view(all));
        let r = Config { crate_dep, dev_deps };
        assert(r.deps() =~= deps_view(all));
        Ok(r)
    }

    /// The manifest as TOML text: the fixed sections, then one line per
    /// dependency, the original crate first.
    pub fn into_string(&self) -> (r: String)
        ensures
            r@ == header_text() + deps_text(self.deps()),
    {
        proof {
            use_type_invariant(self);
        }
        let mut out = String::from_str(
            "[package]\nname = \"tests-ios\"\nversion = \"0.0.0\"\n\n[lib]\nname = \"tests_ios\"\npath = \"lib.rs\"\ncrate-type = [\"staticlib\"]\n\n[dependencies]\n",
        );
        assert(self.deps()[0] == self.crate_dep@);
        assert(plain_string(self.deps()[0].name));
        let line = dep_line_of(&self.crate_dep);
        out.append(line.as_str());
        proof {
            let first = seq![self.crate_dep@];
            assert(first.drop_last() =~= Seq::<DepModel>::empty());
            assert(deps_text(Seq::<DepModel>::empty()) == Seq::<char>::empty());
            assert(deps_text(first) =~= dep_line(self.crate_dep@));
            assert(self.deps().take(1) =~= first);
        }
        let mut i: usize = 0;
        while i < self.dev_deps.len()
            invariant
                i <= self.dev_deps@.len(),
                out@ == header_text() + deps_text(self.deps().take(i + 1)),
                self.wf(),
            decreases self.dev_deps@.len() - i,
        {
            assert(self.deps()[i + 1] == self.dev_deps@[i as int]@);
            assert(plain_string(self.deps()[i + 1].name));
            let line = dep_line_of(&self.dev_deps[i]);
            out.append(line.as_str());
            proof {
                let next = self.deps().take(i + 2);
                assert(next.drop_last() =~= self.deps().take(i + 1));
                assert(next.last() == self.dev_deps@[i as int]@);
                assert(out@ =~= header_text() + deps_text(next));
            }
            i = i + 1;
        }
        assert(self.deps().take(i + 1) =~= self.deps());
        out
    }
}

/// The repeat found is a position of the list.
pub proof fn lemma_first_repeat_range(names: Seq<Seq<char>>)
    ensures
        first_repeat(names) matches Some(j) ==> 0 < j < names.len(),
    decreases names.len(),
{
    if names.len() > 0 {
        lemma_first_repeat_range(names.drop_last());
    }
}

/// Once a prefix holds a repeat, the whole list holds the same first one.
proof fn lemma_first_repeat_prefix(names: Seq<Seq<char>>, m: int)
    requires
        0 <= m <= names.len(),
        first_repeat(names.take(m)) is Some,
    ensures
        first_repeat(names) == first_repeat(names.take(m)),
    decreases names.len() - m,
{
    if m < names.len() {
        let next = names.take(m + 1);
        assert(next.drop_last() =~= names.take(m));
        lemma_first_repeat_prefix(names, m + 1);
    } else {
        assert(names.take(m) =~= names);
    }
}

/// A list in which no name repeats an earlier one has distinct names.
proof fn lemma_no_repeat_distinct(deps: Seq<DepModel>)
    requires
        first_repeat(deps.map_values(|d: DepModel| d.name)) is None,
    ensures
        distinct_names(deps),
    decreases deps.len(),
{
    if deps.len() > 0 {
        let names = deps.map_values(|d: DepModel| d.name);
        assert(names.drop_last() =~= deps.drop_last().map_values(|d: DepModel| d.name));
        lemma_no_repeat_distinct(deps.drop_last());
        assert forall|i: int, j: int| 0 <= i < j < deps.len() implies deps[i].name != deps[j].name by {
            if j == deps.len() - 1 {
                assert(names.drop_last()[i] == deps[i].name);
                assert(!names.drop_last().contains(names.last()));
            } else {
                assert(deps.drop_last()[i] == deps[i] && deps.drop_last()[j] == deps[j]);
            }
        }
    }
}

/// Whether every character of `s` is plain.
fn is_plain(s: &str) -> (r: bool)
    ensures
        r == plain_string(s@),
{
    let t = crate::text::chars_of(s);
    let mut k: usize = 0;
    while k < t.len()
        invariant
            k <= t@.len(),
            t@ == s@,
            forall|m: int| 0 <= m < k ==> plain_char(#[trigger] t@[m]),
        decreases t@.len() - k,
    {
        let c = t[k];
        if !(c != '"' && c != '\\' && ' ' <= c && c != '\x7f') {
            assert(!plain_char(t@[k as int]));
            return false;
        }
        k = k + 1;
    }
    true
}

/// A key as it is written.
fn key_of(name: &str) -> (r: String)
    requires
        plain_string(name@),
    ensures
        r@ == key_text(name@),
{
    let t = crate::text::chars_of(name);
    let mut bare = t.len() > 0;
    let mut k: usize = 0;
    while k < t.len()
        invariant
            k <= t@.len(),
            t@ == name@,
            bare == (t@.len() > 0 && forall|m: int| 0 <= m < k ==> bare_char(#[trigger] t@[m])),
        decreases t@.len() - k,
    {
        let c = t[k];
        let ok = ('A' <= c && c <= 'Z') || ('a' <= c && c <= 'z') || ('0' <= c && c <= '9') || c == '_'
            || c == '-';
        bare = bare && ok;
        k = k + 1;
    }
    if bare {
        String::from_str(name)
    } else {
        toml_quote(name)
    }
}

/// One line of the dependency table.
fn dep_line_of(d: &Dependency) -> (r: String)
    requires
        plain_string(d.name@),
    ensures
        r@ == dep_line(d@),
{
    let mut out = key_of(d.name.as_str());
    out.append(" = { ");
    match &d.source {
        DependencySource::Local(p) => {
            out.append("path = ");
            let q = toml_quote(p.as_str());
            out.append(q.as_str());
        },
        DependencySource::Remote(v) => {
            out.append("version = ");
            let q = toml_quote(v.as_str());
            out.append(q.as_str());
        },
    }
    let ghost fs = d.features@.map_values(|f: String| f@);
    if d.features.len() > 0 {
        out.append(", features = [");
        let mut i: usize = 0;
        let ghost start = out@;
        while i < d.features.len()
            invariant
                i <= d.features@.len(),
                fs == d.features@.map_values(|f: String| f@),
                out@ == start + list_text(fs.take(i as int)),
            decreases d.features@.len() - i,
        {
            if i > 0 {
                out.append(", ");
            }
            let q = toml_quote(d.features[i].as_str());
            out.append(q.as_str());
            proof {
                let next = fs.take(i + 1);
                assert(next.drop_last() =~= fs.take(i as int));
                if i == 0 {
                    assert(fs.take(0) =~= Seq::<Seq<char>>::empty());
                }
            }
            assert(out@ =~= start + list_text(fs.take(i + 1)));
            i = i + 1;
        }
        assert(fs.take(i as int) =~= fs);
        out.append("]");
    }
    out.append(" }\n");
    assert(out@ =~= dep_line(d@));
    out
}

} // verus!
