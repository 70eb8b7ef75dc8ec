//! Paths, held as text and composed the POSIX way, as `std::path` does on
//! Unix: `/` separates components, and a path starting with `/` is
//! absolute. Repeated separators and `.` components inside a path name
//! nothing, so taking a parent passes over them.
use vstd::prelude::*;

use crate::text::{chars_of, slice_chars, string_of};

verus! {

/// Index of the last `/` in `p`, or -1.
pub open spec fn last_sep(p: Seq<char>) -> int
    decreases p.len(),
{
    if p.len() == 0 {
        -1
    } else if p.last() == '/' {
        p.len() - 1
    } else {
        last_sep(p.drop_last())
    }
}

/// Where the components of `p` begin: after a leading `/`, or after a
/// leading `.` that is a component of its own (`.` or `./...`).
pub open spec fn body_start(p: Seq<char>) -> int {
    if p.len() > 0 && p[0] == '/' {
        1
    } else if p.len() > 0 && p[0] == '.' && (p.len() == 1 || p[1] == '/') {
        1
    } else {
        0
    }
}

/// Where the last component of `q` begins, components starting at `b`.
pub open spec fn last_comp_start(q: Seq<char>, b: int) -> int {
    if last_sep(q) >= b {
        last_sep(q) + 1
    } else {
        b
    }
}

/// How much of `q` is left once its last component, and the separator
/// before it, are cut off.
pub open spec fn comp_cut(q: Seq<char>, b: int) -> int {
    if last_sep(q) >= b {
        last_sep(q)
    } else {
        b
    }
}

/// A component that names nothing: empty (a repeated or trailing
/// separator) or `.`.
pub open spec fn names_nothing(c: Seq<char>) -> bool {
    c.len() == 0 || c == seq!['.']
}

/// `q` with the components at its end that name nothing cut off.
pub open spec fn strip_tail(q: Seq<char>, b: int) -> Seq<char>
    decreases q.len(),
{
    if q.len() <= b || b < 0 {
        q
    } else if names_nothing(q.subrange(last_comp_start(q, b), q.len() as int)) {
        proof {
            lemma_last_sep_bounds(q);
        }
        strip_tail(q.subrange(0, comp_cut(q, b)), b)
    } else {
        q
    }
}

/// The path without its final component, as `std::path::Path::parent`
/// gives it: `None` for the empty path and the root, `""` for a bare name
/// (and for `.`), `/` for a name directly under the root. Separators and
/// `.` components at the end are passed over first, and those left before
/// the final component are dropped with it: `a/b/` and `a//b` both have
/// the parent `a`.
pub open spec fn parent_spec(p: Seq<char>) -> Option<Seq<char>> {
    let b = body_start(p);
    let t = strip_tail(p, b);
    if t.len() > b {
        Some(strip_tail(t.subrange(0, comp_cut(t, b)), b))
    } else if p.len() > 0 && p[0] == '/' {
        None
    } else if b == 1 {
        Some(Seq::empty())
    } else {
        None
    }
}

/// `name` appended to `base` as a further component: an absolute `name`
/// replaces `base`, and a separator is added unless `base` is empty or
/// already ends in one.
pub open spec fn join_spec(base: Seq<char>, name: Seq<char>) -> Seq<char> {
    if name.len() > 0 && name[0] == '/' {
        name
    } else if base.len() == 0 || base.last() == '/' {
        base + name
    } else {
        base + seq!['/'] + name
    }
}

/// The last separator lies inside the path, and is a `/`.
pub proof fn lemma_last_sep_bounds(p: Seq<char>)
    ensures
        -1 <= last_sep(p) < p.len(),
        last_sep(p) >= 0 ==> p[last_sep(p)] == '/',
    decreases p.len(),
{
    if p.len() > 0 && p.last() != '/' {
        lemma_last_sep_bounds(p.drop_last());
    }
}

/// Where the last component of `chars[..len]` begins, and how much is
/// left once it and the separator before it are cut off.
fn last_comp(chars: &Vec<char>, len: usize, b: usize) -> (r: (usize, usize))
    requires
        b <= len <= chars@.len(),
    ensures
        r.0 == last_comp_start(chars@.take(len as int), b as int),
        r.1 == comp_cut(chars@.take(len as int), b as int),
        b <= r.1 <= r.0 <= len,
{
    let mut j: usize = len;
    assert(chars@.take(len as int).take(len as int) =~= chars@.take(len as int));
    while j > b && chars[j - 1] != '/'
        invariant
            b <= j <= len <= chars@.len(),
            last_sep(chars@.take(len as int)) == last_sep(chars@.take(j as int)),
        decreases j,
    {
        proof {
            assert(chars@.take(j as int).drop_last() =~= chars@.take(j - 1));
        }
        j = j - 1;
    }
    proof {
        lemma_last_sep_bounds(chars@.take(j as int));
        if j > b {
            assert(chars@.take(j as int).last() == '/');
        }
    }
    if j > b {
        (j, j - 1)
    } else {
        (b, b)
    }
}

/// How much of `chars[..len]` is left once the components at its end that
/// name nothing are cut off.
fn strip_len(chars: &Vec<char>, len: usize, b: usize) -> (n: usize)
    requires
        b <= len <= chars@.len(),
    ensures
        b <= n <= len,
        chars@.take(n as int) == strip_tail(chars@.take(len as int), b as int),
{
    let mut n: usize = len;
    while n > b
        invariant
            b <= n <= len <= chars@.len(),
            strip_tail(chars@.take(len as int), b as int) == strip_tail(chars@.take(n as int), b as int),
        decreases n,
    {
        let (start, cut) = last_comp(chars, n, b);
        let ghost q = chars@.take(n as int);
        let skip = n == start || (n == start + 1 && chars[start] == '.');
        proof {
            let c = q.subrange(start as int, n as int);
            if n == start + 1 && chars[start as int] == '.' {
                assert(c =~= seq!['.']);
            }
            if c == seq!['.'] {
                assert(c.len() == seq!['.'].len());
                assert(c[0] == seq!['.'][0]);
                assert(c[0] == q[start as int]);
            }
            assert(skip == names_nothing(c));
            assert(q.subrange(0, cut as int) =~= chars@.take(cut as int));
        }
        if skip {
            n = cut;
        } else {
            return n;
        }
    }
    n
}

/// The parent directory of `p`, per [`parent_spec`].
pub fn parent_of(p: &str) -> (r: Option<String>)
    ensures
        crate::text::opt_chars(r) == parent_spec(p@),
{
    let chars = chars_of(p);
    let len = chars.len();
    let rooted = len > 0 && chars[0] == '/';
    let b: usize = if rooted {
        1
    } else if len > 0 && chars[0] == '.' && (len == 1 || chars[1] == '/') {
        1
    } else {
        0
    };
    assert(chars@.take(len as int) =~= p@);
    let t = strip_len(&chars, len, b);
    if t > b {
        let (_, cut) = last_comp(&chars, t, b);
        proof {
            assert(chars@.take(t as int).subrange(0, cut as int) =~= chars@.take(cut as int));
        }
        let q = strip_len(&chars, cut, b);
        let parent = slice_chars(chars.as_slice(), 0, q);
        assert(parent@ =~= chars@.take(q as int));
        Some(string_of(parent.as_slice()))
    } else if rooted {
        None
    } else if b == 1 {
        Some(String::new())
    } else {
        None
    }
}

/// `name` joined onto `base`, per [`join_spec`].
pub fn join(base: &str, name: &str) -> (r: String)
    ensures
        r@ == join_spec(base@, name@),
{
    let b = chars_of(base);
    let n = chars_of(name);
    if n.len() > 0 && n[0] == '/' {
        return String::from_str(name);
    }
    let mut out = String::from_str(base);
    if !(b.len() == 0 || b[b.len() - 1] == '/') {
        out.append("/");
        proof {
            reveal_strlit("/");
        }
    }
    out.append(name);
    proof {
        if !(b@.len() == 0 || b@.last() == '/') {
            assert("/"@ =~= seq!['/']);
        }
    }
    out
}

} // verus!
