//! Paths as texts: joining, the last component, and its extension.
use crate::text::{from_chars, opt_text, owned, to_chars};
use vstd::prelude::*;

verus! {

/// The path of `part` under `base`. A `part` from the root stands for itself.
pub open spec fn joined_path(base: Seq<char>, part: Seq<char>) -> Seq<char> {
    if part.len() > 0 && part[0] == '/' {
        part
    } else if base.len() == 0 || base.last() == '/' {
        base + part
    } else {
        base + seq!['/'] + part
    }
}

/// The path of `part` under `base`.
pub fn join_path(base: &str, part: &str) -> (r: String)
    ensures
        r@ == joined_path(base@, part@),
{
    let p = to_chars(part);
    if p.len() > 0 && p[0] == '/' {
        return owned(part);
    }
    let b = to_chars(base);
    let mut r = owned(base);
    if b.len() > 0 && b[b.len() - 1] != '/' {
        r.push('/');
        assert(r@ =~= base@ + seq!['/']);
    }
    r.append(part);
    r
}

/// Where the path ends, of its first `n` characters, when the separators
/// and the `.` components at its end do not count.
pub open spec fn path_end(s: Seq<char>, n: int) -> int
    decreases n,
{
    if n <= 0 {
        0
    } else if s[n - 1] == '/' {
        path_end(s, n - 1)
    } else if s[n - 1] == '.' && n >= 2 && s[n - 2] == '/' {
        path_end(s, n - 1)
    } else {
        n
    }
}

/// Where the last component of the first `n` characters begins.
pub open spec fn component_start(s: Seq<char>, n: int) -> int
    decreases n,
{
    if n <= 0 {
        0
    } else if s[n - 1] == '/' {
        n
    } else {
        component_start(s, n - 1)
    }
}

proof fn lemma_path_end(s: Seq<char>, n: int)
    requires
        0 <= n <= s.len(),
    ensures
        0 <= path_end(s, n) <= n,
    decreases n,
{
    if n > 0 {
        lemma_path_end(s, n - 1);
    }
}

proof fn lemma_component_start(s: Seq<char>, n: int)
    requires
        0 <= n <= s.len(),
    ensures
        0 <= component_start(s, n) <= n,
    decreases n,
{
    if n > 0 {
        lemma_component_start(s, n - 1);
    }
}

/// The last component of a path: none where the path is empty, is the root
/// or `.`, or ends in `..`.
pub open spec fn file_name_of(s: Seq<char>) -> Option<Seq<char>> {
    let e = path_end(s, s.len() as int);
    let name = s.subrange(component_start(s, e), e);
    if name.len() == 0 || name == seq!['.'] || name == seq!['.', '.'] {
        None
    } else {
        Some(name)
    }
}

/// The last component of a path, if there is one.
pub fn file_name(path: &str) -> (r: Option<String>)
    ensures
        opt_text(r) == file_name_of(path@),
{
    let s = to_chars(path);
    let mut e: usize = s.len();
    proof {
        lemma_path_end(s@, s@.len() as int);
    }
    while e > 0 && (s[e - 1] == '/' || (s[e - 1] == '.' && e >= 2 && s[e - 2] == '/'))
        invariant
            e <= s@.len(),
            path_end(s@, e as int) == path_end(s@, s@.len() as int),
        decreases e,
    {
        e -= 1;
    }
    assert(path_end(s@, s@.len() as int) == e);
    proof {
        lemma_component_start(s@, e as int);
    }
    let mut b: usize = e;
    while b > 0 && s[b - 1] != '/'
        invariant
            b <= e <= s@.len(),
            component_start(s@, b as int) == component_start(s@, e as int),
        decreases b,
    {
        b -= 1;
    }
    assert(component_start(s@, e as int) == b);
    let ghost name = s@.subrange(b as int, e as int);
    if b == e {
        return None;
    }
    if e - b == 1 && s[b] == '.' {
        assert(name =~= seq!['.']);
        return None;
    }
    if e - b == 2 && s[b] == '.' && s[b + 1] == '.' {
        assert(name =~= seq!['.', '.']);
        return None;
    }
    proof {
        assert(name.len() == e - b && name[0] == s@[b as int]);
        if name == seq!['.'] {
            assert(name.len() == 1 && name[0] == '.');
        }
        if name == seq!['.', '.'] {
            assert(name.len() == 2 && name[0] == '.' && name[1] == '.');
            assert(name[1] == s@[b + 1]);
        }
    }
    Some(from_chars(&s, b, e))
}

/// Where the last dot of the first `n` characters stands.
pub open spec fn last_dot(s: Seq<char>, n: int) -> Option<int>
    decreases n,
{
    if n <= 0 {
        None
    } else if s[n - 1] == '.' {
        Some(n - 1)
    } else {
        last_dot(s, n - 1)
    }
}

/// What stands behind the last dot of a file name, unless that dot is its
/// first character.
pub open spec fn extension_of(name: Seq<char>) -> Option<Seq<char>> {
    match last_dot(name, name.len() as int) {
        Some(d) => if d > 0 {
            Some(name.subrange(d + 1, name.len() as int))
        } else {
            None
        },
        None => None,
    }
}

/// The extension of a file name.
pub fn extension(name: &str) -> (r: Option<String>)
    ensures
        opt_text(r) == extension_of(name@),
{
    let s = to_chars(name);
    let mut n: usize = s.len();
    while n > 0
        invariant
            n <= s@.len(),
            s@ == name@,
            last_dot(s@, n as int) == last_dot(s@, s@.len() as int),
        decreases n,
    {
        if s[n - 1] == '.' {
            if n == 1 {
                return None;
            }
            return Some(from_chars(&s, n, s.len()));
        }
        n -= 1;
    }
    None
}

} // verus!
