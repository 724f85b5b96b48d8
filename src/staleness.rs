use vstd::prelude::*;
use crate::text::chars_of;

verus! {

/// A modification time: whole seconds since the epoch and the nanoseconds
/// within that second.
#[derive(Clone, Copy, Debug, PartialEq, Eq, Structural)]
pub struct FileTime {
    pub secs: i64,
    pub nanos: i64,
}

/// `a` is strictly later than `b`: by seconds, and on equal seconds by
/// nanoseconds. Equal times are not later.
pub open spec fn later(a: FileTime, b: FileTime) -> bool {
    a.secs > b.secs || (a.secs == b.secs && a.nanos > b.nanos)
}

/// Some source is strictly later than the output.
pub open spec fn any_later(sources: Seq<FileTime>, output: FileTime) -> bool {
    exists|i: int| 0 <= i < sources.len() && #[trigger] later(sources[i], output)
}

/// Whether the harness must be generated again: the output is absent, or some
/// source was modified after it.
pub open spec fn must_build(output: Option<FileTime>, sources: Seq<FileTime>) -> bool {
    match output {
        None => true,
        Some(out) => any_later(sources, out),
    }
}

/// Whether `m1` was modified after `m2`.
pub fn modified_more_recently(m1: &FileTime, m2: &FileTime) -> (r: bool)
    ensures
        r == later(*m1, *m2),
{
    m1.secs > m2.secs || (m1.secs == m2.secs && m1.nanos > m2.nanos)
}

/// Whether the output must be regenerated, given its modification time
/// (`None` when it does not exist) and those of the source files.
pub fn should_build(output: Option<FileTime>, sources: &[FileTime]) -> (r: bool)
    ensures
        r == must_build(output, sources@),
{
    let out = match output {
        None => return true,
        Some(o) => o,
    };
    let mut i: usize = 0;
    while i < sources.len()
        invariant
            i <= sources@.len(),
            output == Some(out),
            forall|j: int| 0 <= j < i ==> !later(#[trigger] sources@[j], out),
        decreases sources@.len() - i,
    {
        if modified_more_recently(&sources[i], &out) {
            assert(later(sources@[i as int], out));
            assert(any_later(sources@, out));
            return true;
        }
        i = i + 1;
    }
    false
}

/// The last component of a path: what follows its last `/`.
pub open spec fn file_name(path: Seq<char>) -> Seq<char>
    decreases path.len(),
{
    if path.len() == 0 {
        path
    } else if path.last() == '/' {
        Seq::empty()
    } else {
        file_name(path.drop_last()).push(path.last())
    }
}

/// The path without the trailing separators and trailing `.` components,
/// which add no component of their own: `a.rs/` and `a.rs/.` name `a.rs`.
pub open spec fn trim_end(path: Seq<char>) -> Seq<char>
    decreases path.len(),
{
    if path.len() > 0 && path.last() == '/' {
        trim_end(path.drop_last())
    } else if path.len() >= 2 && path.last() == '.' && path[path.len() - 2] == '/' {
        trim_end(path.drop_last())
    } else {
        path
    }
}

/// The file name has the extension `rs`: its last component ends in `.rs`
/// with at least one character before the dot.
pub open spec fn rs_extension(path: Seq<char>) -> bool {
    let name = file_name(trim_end(path));
    name.len() > 3 && name.subrange(name.len() - 3, name.len() as int) == seq!['.', 'r', 's']
}

/// Whether the path names a Rust source file.
pub fn has_rs_ext(path: &str) -> (r: bool)
    ensures
        r == rs_extension(path@),
{
    let t = chars_of(path);
    let mut n: usize = t.len();
    assert(t@.subrange(0, n as int) =~= t@);
    while n > 0 && (t[n - 1] == '/' || (n >= 2 && t[n - 1] == '.' && t[n - 2] == '/'))
        invariant
            n <= t@.len(),
            t@ == path@,
            trim_end(path@) == trim_end(t@.subrange(0, n as int)),
        decreases n,
    {
        proof {
            let s = t@.subrange(0, n as int);
            assert(s.drop_last() =~= t@.subrange(0, n - 1));
            assert(s.last() == t@[n - 1]);
            if n >= 2 {
                assert(s[s.len() - 2] == t@[n - 2]);
            }
        }
        n = n - 1;
    }
    let ghost trimmed = t@.subrange(0, n as int);
    proof {
        if n >= 2 {
            assert(trimmed[trimmed.len() - 2] == t@[n - 2]);
        }
        assert(trim_end(trimmed) == trimmed);
    }
    let mut start: usize = n;
    assert(trimmed.subrange(0, n as int) =~= trimmed);
    assert(trimmed.subrange(n as int, n as int) =~= Seq::<char>::empty());
    while start > 0 && t[start - 1] != '/'
        invariant
            start <= n <= t@.len(),
            trimmed == t@.subrange(0, n as int),
            file_name(trimmed) == file_name(trimmed.subrange(0, start as int)) + trimmed.subrange(
                start as int,
                n as int,
            ),
        decreases start,
    {
        proof {
            let s = trimmed.subrange(0, start as int);
            assert(s.drop_last() =~= trimmed.subrange(0, start - 1));
            assert(s.last() == t@[start - 1]);
            assert(trimmed.subrange(start - 1, n as int) =~= seq![s.last()] + trimmed.subrange(
                start as int,
                n as int,
            ));
        }
        start = start - 1;
    }
    proof {
        let s = trimmed.subrange(0, start as int);
        if start > 0 {
            assert(s.last() == t@[start - 1]);
        }
        assert(file_name(s) == Seq::<char>::empty());
        assert(file_name(trimmed) =~= trimmed.subrange(start as int, n as int));
    }
    if n - start <= 3 {
        return false;
    }
    let r = t[n - 3] == '.' && t[n - 2] == 'r' && t[n - 1] == 's';
    proof {
        let name = trimmed.subrange(start as int, n as int);
        let tail = name.subrange(name.len() - 3, name.len() as int);
        assert(tail[0] == t@[n - 3] && tail[1] == t@[n - 2] && tail[2] == t@[n - 1]);
        if r {
            assert(tail =~= seq!['.', 'r', 's']);
        }
    }
    r
}

} // verus!
