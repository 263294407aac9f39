//! Which directory entries the scan of a vault takes in.
use vstd::prelude::*;

use crate::text::chars_of;

verus! {

/// A name that starts with `.` marks a hidden entry.
pub open spec fn hidden(name: Seq<char>) -> bool {
    name.len() > 0 && name[0] == '.'
}

/// Whether an entry is hidden; the scan neither takes in a hidden file nor
/// descends into a hidden directory.
pub fn is_hidden(name: &str) -> (r: bool)
    ensures
        r == hidden(name@),
{
    let cs = chars_of(name);
    cs.len() > 0 && cs[0] == '.'
}

/// The position of the last `.` among the first `n` characters, or -1.
pub open spec fn last_dot(s: Seq<char>, n: int) -> int
    decreases n,
{
    if n <= 0 {
        -1
    } else if s[n - 1] == '.' {
        n - 1
    } else {
        last_dot(s, n - 1)
    }
}

/// The extension of a file name: what follows its last `.`, unless that dot
/// is the first character or there is none.
pub open spec fn extension_of(name: Seq<char>) -> Option<Seq<char>> {
    let p = last_dot(name, name.len() as int);
    if p <= 0 {
        None
    } else {
        Some(name.subrange(p + 1, name.len() as int))
    }
}

proof fn lemma_last_dot_range(s: Seq<char>, n: int)
    requires
        0 <= n <= s.len(),
    ensures
        -1 <= last_dot(s, n) < n,
        last_dot(s, n) >= 0 ==> s[last_dot(s, n)] == '.',
        forall|q: int| last_dot(s, n) < q < n ==> s[q] != '.',
    decreases n,
{
    if n > 0 && s[n - 1] != '.' {
        lemma_last_dot_range(s, n - 1);
    }
}

/// Whether a file name has the given extension (`"md"` for notes).
pub fn has_extension(name: &str, ext: &str) -> (r: bool)
    ensures
        r == (extension_of(name@) == Some(ext@)),
{
    let cs = chars_of(name);
    let es = chars_of(ext);
    let mut n: usize = cs.len();
    while n > 0 && cs[n - 1] != '.'
        invariant
            n <= cs@.len(),
            last_dot(cs@, cs@.len() as int) == last_dot(cs@, n as int),
        decreases n,
    {
        n = n - 1;
    }
    proof {
        lemma_last_dot_range(cs@, cs@.len() as int);
    }
    if n <= 1 {
        return false;
    }
    let start = n;
    if cs.len() - start != es.len() {
        assert(cs@.subrange(start as int, cs@.len() as int).len() != es@.len());
        return false;
    }
    let mut i: usize = 0;
    while i < es.len()
        invariant
            cs@ == name@,
            es@ == ext@,
            extension_of(cs@) == Some(cs@.subrange(start as int, cs@.len() as int)),
            start + es@.len() == cs@.len(),
            cs@.len() <= usize::MAX,
            i <= es@.len(),
            forall|q: int| 0 <= q < i ==> cs@[start + q] == es@[q],
        decreases es@.len() - i,
    {
        if cs[start + i] != es[i] {
            assert(cs@.subrange(start as int, cs@.len() as int)[i as int] != es@[i as int]);
            return false;
        }
        i = i + 1;
    }
    assert(cs@.subrange(start as int, cs@.len() as int) =~= es@);
    true
}

} // verus!
