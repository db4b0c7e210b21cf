//! What the library needs to know of file paths: their extension and how a
//! location below the music folder becomes an absolute path.

use vstd::prelude::*;
use crate::text::{chars_of, string_of_range};

verus! {

/// The extension of a file's path, as the filesystem reported it.
pub enum Extension {
    /// The file name has no extension.
    Missing,
    /// The extension is not valid Unicode.
    NotUnicode,
    /// The extension, without its leading dot.
    Text(String),
}

/// Where the last component of `p[..end]` that names a file or directory
/// ends, as `Path::file_name` finds it on Unix: trailing `/`s and `.`
/// components (but a `.` that starts the path) are passed over; a path
/// that ends in `..`, in a leading `.`, in the root or that is empty names
/// nothing.
pub open spec fn name_end(p: Seq<char>, end: int) -> Option<int>
    decreases end,
{
    if end <= 0 || end > p.len() {
        None
    } else if p[end - 1] == '/' {
        name_end(p, end - 1)
    } else if p[end - 1] == '.' && (end == 1 || p[end - 2] == '/') {
        if end == 1 {
            None
        } else {
            name_end(p, end - 1)
        }
    } else if end >= 2 && p[end - 1] == '.' && p[end - 2] == '.' && (end == 2 || p[end - 3] == '/') {
        None
    } else {
        Some(end)
    }
}

/// Where the component that ends at `end` starts: just after the last `/`
/// before `end`, or at 0.
pub open spec fn component_start(p: Seq<char>, end: int) -> int
    decreases end,
{
    if end <= 0 || end > p.len() {
        0
    } else if p[end - 1] == '/' {
        end
    } else {
        component_start(p, end - 1)
    }
}

/// The index of the last `.` in `p[from..end]`, if there is one.
pub open spec fn last_dot(p: Seq<char>, from: int, end: int) -> Option<int>
    decreases end - from,
{
    if end <= from || end > p.len() {
        None
    } else if p[end - 1] == '.' {
        Some(end - 1)
    } else {
        last_dot(p, from, end - 1)
    }
}

/// The extension of the path `p`, as `Path::extension` gives it on Unix:
/// the part of the file name after its last `.`; nothing when there is no
/// file name, when the name has no `.`, or when its only `.` starts it.
pub open spec fn unix_extension(p: Seq<char>) -> Option<Seq<char>> {
    match name_end(p, p.len() as int) {
        None => None,
        Some(e) => {
            let k = component_start(p, e);
            match last_dot(p, k, e) {
                Some(i) => if i == k {
                    None
                } else {
                    Some(p.subrange(i + 1, e))
                },
                None => None,
            }
        },
    }
}

/// `rel` adjoined to `base` with `/` as the separator, as `Path::join`
/// does on Unix: an absolute `rel` replaces `base`; otherwise a `/` is put
/// between the two unless `base` is empty or already ends with one.
pub open spec fn unix_join(base: Seq<char>, rel: Seq<char>) -> Seq<char> {
    if rel.len() > 0 && rel[0] == '/' {
        rel
    } else if base.len() == 0 || base.last() == '/' {
        base + rel
    } else {
        base + seq!['/'] + rel
    }
}

/// Joining a relative path to a directory puts the directory first, then a
/// single `/` only when the directory is not empty and does not end in one,
/// then the relative path, unchanged; an absolute path stands alone.
pub proof fn law_join(base: Seq<char>, rel: Seq<char>)
    ensures
        rel.len() > 0 && rel[0] == '/' ==> unix_join(base, rel) == rel,
        !(rel.len() > 0 && rel[0] == '/') ==> {
            let r = unix_join(base, rel);
            let sep: int = if base.len() == 0 || base.last() == '/' {
                0
            } else {
                1
            };
            &&& r.len() == base.len() + sep + rel.len()
            &&& r.take(base.len() as int) == base
            &&& (sep == 1 ==> r[base.len() as int] == '/')
            &&& r.skip(base.len() + sep) == rel
        },
{
    if !(rel.len() > 0 && rel[0] == '/') {
        let r = unix_join(base, rel);
        if base.len() == 0 || base.last() == '/' {
            assert(r.take(base.len() as int) =~= base);
            assert(r.skip(base.len() as int) =~= rel);
        } else {
            assert(r.take(base.len() as int) =~= base);
            assert(r.skip(base.len() + 1int) =~= rel);
        }
    }
}

proof fn lemma_component_start(p: Seq<char>, k: int, end: int)
    requires
        0 <= k <= end <= p.len(),
        k == 0 || p[k - 1] == '/',
        forall|j: int| k <= j < end ==> p[j] != '/',
    ensures
        component_start(p, end) == k,
    decreases end,
{
    if end > k {
        lemma_component_start(p, k, end - 1);
    }
}

proof fn lemma_last_dot(p: Seq<char>, from: int, end: int)
    requires
        0 <= from,
        end <= p.len(),
    ensures
        match last_dot(p, from, end) {
            Some(i) => from <= i < end && p[i] == '.' && forall|j: int| i < j < end ==> p[j] != '.',
            None => forall|j: int| from <= j < end ==> p[j] != '.',
        },
    decreases end - from,
{
    if end > from && p[end - 1] != '.' {
        lemma_last_dot(p, from, end - 1);
    }
}

/// The extension of a path whose last component is the name `n` (a name
/// with no `/`, neither `.` nor `..`, after a directory part that is empty
/// or ends in `/`) is the part of `n` after its last `.`: there is none
/// when `n` has no `.` or when its only `.` starts it.
pub proof fn law_extension_of_a_name(d: Seq<char>, n: Seq<char>)
    requires
        d.len() == 0 || d.last() == '/',
        n.len() > 0,
        forall|j: int| 0 <= j < n.len() ==> n[j] != '/',
        n != seq!['.'],
        n != seq!['.', '.'],
    ensures
        (forall|j: int| 0 <= j < n.len() ==> n[j] != '.') ==> unix_extension(d + n) is None,
        n[0] == '.' && (forall|j: int| 0 < j < n.len() ==> n[j] != '.') ==> unix_extension(d + n)
            is None,
        forall|i: int|
            0 < i < n.len() && n[i] == '.' && (forall|j: int| i < j < n.len() ==> n[j] != '.')
                ==> unix_extension(d + n) == Some(#[trigger] n.skip(i + 1)),
{
    let p = d + n;
    let end = p.len() as int;
    let k = d.len() as int;
    assert(p[end - 1] == n[n.len() - 1]);
    assert(p[end - 1] != '/');
    if p[end - 1] == '.' && (end == 1 || p[end - 2] == '/') {
        if n.len() == 1 {
            assert(n =~= seq!['.']);
        } else {
            assert(p[end - 2] == n[n.len() - 2]);
        }
    }
    if end >= 2 && p[end - 1] == '.' && p[end - 2] == '.' && (end == 2 || p[end - 3] == '/') {
        if n.len() == 1 {
            assert(p[end - 2] == d.last());
        } else if n.len() == 2 {
            assert(p[end - 2] == n[0]);
            assert(n =~= seq!['.', '.']);
        } else {
            assert(p[end - 2] == n[n.len() - 2]);
            assert(p[end - 3] == n[n.len() - 3]);
        }
    }
    assert(name_end(p, end) == Some(end));
    assert forall|j: int| k <= j < end implies p[j] != '/' by {
        assert(p[j] == n[j - k]);
    }
    if k > 0 {
        assert(p[k - 1] == d.last());
    }
    lemma_component_start(p, k, end);
    lemma_last_dot(p, k, end);
    match last_dot(p, k, end) {
        Some(i) => {
            assert(n[i - k] == '.');
            assert forall|j: int| i - k < j < n.len() implies n[j] != '.' by {
                assert(p[j + k] == n[j]);
            }
            assert(p.subrange(i + 1, end) =~= n.skip(i - k + 1));
            assert forall|i2: int|
                0 < i2 < n.len() && n[i2] == '.' && (forall|j: int| i2 < j < n.len() ==> n[j] != '.')
                    implies unix_extension(d + n) == Some(#[trigger] n.skip(i2 + 1)) by {
                if i2 < i - k {
                    assert(n[i - k] != '.');
                } else if i2 > i - k {
                    assert(p[i2 + k] == n[i2]);
                }
            }
        },
        None => {
            assert forall|j: int| 0 <= j < n.len() implies n[j] != '.' by {
                assert(p[j + k] == n[j]);
            }
        },
    }
}

/// The extension of `path`, as `Path::extension` gives it on Unix (see
/// [`unix_extension`]).
pub fn extension_of(path: &str) -> (r: Extension)
    ensures
        match unix_extension(path@) {
            None => r is Missing,
            Some(e) => r matches Extension::Text(t) && t@ == e,
        },
{
    let v = chars_of(path);
    let n = v.len();
    let mut end: usize = n;
    loop
        invariant
            v@ == path@,
            n == v.len(),
            end <= n,
            name_end(v@, n as int) == name_end(v@, end as int),
        ensures
            0 < end <= n,
            name_end(v@, n as int) == Some(end as int),
        decreases end,
    {
        if end == 0 {
            return Extension::Missing;
        }
        if v[end - 1] == '/' {
            end = end - 1;
        } else if v[end - 1] == '.' && (end == 1 || v[end - 2] == '/') {
            if end == 1 {
                return Extension::Missing;
            }
            end = end - 1;
        } else if end >= 2 && v[end - 1] == '.' && v[end - 2] == '.' && (end == 2 || v[end - 3] == '/') {
            return Extension::Missing;
        } else {
            break;
        }
    }
    assert(name_end(v@, n as int) == Some(end as int));
    let mut k: usize = end;
    while k > 0 && v[k - 1] != '/'
        invariant
            v@ == path@,
            k <= end <= n == v.len(),
            component_start(v@, end as int) == component_start(v@, k as int),
        decreases k,
    {
        k = k - 1;
    }
    let mut j: usize = end;
    while j > k && v[j - 1] != '.'
        invariant
            v@ == path@,
            k <= j <= end <= n == v.len(),
            component_start(v@, end as int) == k,
            last_dot(v@, k as int, end as int) == last_dot(v@, k as int, j as int),
        decreases j,
    {
        j = j - 1;
    }
    if j == k || j - 1 == k {
        return Extension::Missing;
    }
    Extension::Text(string_of_range(&v, j, end))
}

/// `rel` adjoined to `base`, as `Path::join` does on Unix (see
/// [`unix_join`]).
pub fn join_path(base: &str, rel: &str) -> (r: String)
    ensures
        r@ == unix_join(base@, rel@),
{
    let b = chars_of(base);
    let rl = chars_of(rel);
    if rl.len() > 0 && rl[0] == '/' {
        return string_of_range(&rl, 0, rl.len());
    }
    let s = string_of_range(&b, 0, b.len());
    if b.len() == 0 || b[b.len() - 1] == '/' {
        s.concat(rel)
    } else {
        let s = s.concat("/");
        proof {
            reveal_strlit("/");
        }
        s.concat(rel)
    }
}

} // verus!
