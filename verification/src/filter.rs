//! PathFilter: the pure predicate deciding which filesystem entries take
//! part in watching.  It must be applied identically when a tree is first
//! walked and on every later poll pass, so both the tree constructor and the
//! poll engine call the same function.

use vstd::prelude::*;

verus! {

/// A path ends in the editor-backup marker when its last character is `~`.
pub open spec fn ends_with_tilde(p: Seq<char>) -> bool {
    p.len() > 0 && p[p.len() - 1] == '~'
}

/// The half-open range `[i, j)` carves one slash-free, non-empty component
/// out of `p`, delimited by `/` or by the ends of the path.
pub open spec fn is_component_at(p: Seq<char>, i: int, j: int) -> bool {
    &&& 0 <= i < j <= p.len()
    &&& (i == 0 || p[i - 1] == '/')
    &&& (j == p.len() || p[j] == '/')
    &&& (forall|k: int| i <= k < j ==> p[k] != '/')
}

/// `p` has some component equal to `c`.
pub open spec fn has_component(p: Seq<char>, c: Seq<char>) -> bool {
    exists|i: int, j: int| is_component_at(p, i, j) && p.subrange(i, j) == c
}

/// The suffix of `p` after its last `/` (empty when `p` ends in `/`).
pub open spec fn last_component(p: Seq<char>) -> Seq<char>
    decreases p.len(),
{
    if p.len() == 0 {
        p
    } else if p[p.len() - 1] == '/' {
        Seq::empty()
    } else {
        last_component(p.drop_last()).push(p[p.len() - 1])
    }
}

/// Which paths take part in watching: everything except editor backup files
/// (a trailing `~`), the editor swap sentinel (`4913` as final component),
/// and anything under the build output directory (a `.densky` component).
pub open spec fn spec_is_valid_filename(p: Seq<char>) -> bool {
    &&& !ends_with_tilde(p)
    &&& last_component(p) != "4913"@
    &&& !has_component(p, ".densky"@)
}

/// When the region `[s, p.len())` is slash-free and starts right after a `/`
/// (or at the beginning), it is exactly the last component of `p`.
proof fn lemma_last_component_region(p: Seq<char>, s: int)
    requires
        0 <= s <= p.len(),
        s == 0 || p[s - 1] == '/',
        forall|k: int| s <= k < p.len() ==> p[k] != '/',
    ensures
        last_component(p) == p.subrange(s, p.len() as int),
    decreases p.len(),
{
    if p.len() == 0 {
        assert(last_component(p) =~= p.subrange(0, 0));
    } else if s == p.len() {
        assert(p[p.len() - 1] == '/');
        assert(last_component(p) =~= p.subrange(s, p.len() as int));
    } else {
        assert(p[p.len() - 1] != '/');
        lemma_last_component_region(p.drop_last(), s);
        assert(last_component(p) =~= p.subrange(s, p.len() as int));
    }
}

/// Compares the character range `[start, end)` of `path` with `pat`.
fn component_is(path: &str, start: usize, end: usize, pat: &str) -> (r: bool)
    requires
        start <= end <= path@.len(),
    ensures
        r == (path@.subrange(start as int, end as int) == pat@),
{
    let m = pat.unicode_len();
    if end - start != m {
        proof {
            assert(path@.subrange(start as int, end as int).len() == end - start);
        }
        return false;
    }
    let mut k: usize = 0;
    while k < m
        invariant
            start <= end <= path@.len(),
            end - start == m,
            m == pat@.len(),
            0 <= k <= m,
            forall|t: int| 0 <= t < k ==> path@[start + t] == pat@[t],
        decreases m - k,
    {
        if path.get_char(start + k) != pat.get_char(k) {
            proof {
                let sub = path@.subrange(start as int, end as int);
                assert(sub[k as int] == path@[start + k]);
                assert(sub != pat@);
            }
            return false;
        }
        k += 1;
    }
    proof {
        assert(path@.subrange(start as int, end as int) =~= pat@);
    }
    true
}

/// PathFilter: `true` exactly when the path takes part in watching.
///
/// Rejected are paths whose last character is `~` (editor backups), paths
/// whose final component is `4913` (the editor swap sentinel written during
/// atomic saves), and paths with a `.densky` component (the build output
/// directory, excluded so the watcher does not react to its own writes).
pub fn is_valid_filename(path: &str) -> (r: bool)
    ensures
        r == spec_is_valid_filename(path@),
{
    let ghost p = path@;
    let n = path.unicode_len();
    if n > 0 && path.get_char(n - 1) == '~' {
        return false;
    }
    let mut start: usize = 0;
    let mut i: usize = 0;
    while i < n
        invariant
            p == path@,
            n == p.len(),
            !ends_with_tilde(p),
            0 <= start <= i <= n,
            start == 0 || (start <= n && p[start as int - 1] == '/'),
            forall|k: int| start <= k < i ==> p[k] != '/',
            forall|a: int, b: int|
                is_component_at(p, a, b) && b < i ==> p.subrange(a, b) != ".densky"@,
        decreases n - i,
    {
        if path.get_char(i) == '/' {
            if start < i {
                if component_is(path, start, i, ".densky") {
                    proof {
                        assert(is_component_at(p, start as int, i as int));
                    }
                    return false;
                }
            }
            proof {
                lemma_only_component_here(p, start as int, i as int);
            }
            start = i + 1;
        } else {
            proof {
                assert forall|a: int, b: int|
                    is_component_at(p, a, b) && b < i + 1 implies p.subrange(a, b)
                    != ".densky"@ by {
                    if b == i {
                        assert(b < p.len() && p[b] != '/');
                        assert(false);
                    }
                }
            }
        }
        i += 1;
    }
    if start < n {
        if component_is(path, start, n, ".densky") {
            proof {
                assert(is_component_at(p, start as int, n as int));
            }
            return false;
        }
        if component_is(path, start, n, "4913") {
            proof {
                lemma_last_component_region(p, start as int);
            }
            return false;
        }
    }
    proof {
        lemma_only_component_here(p, start as int, n as int);
        if start < n {
            lemma_last_component_region(p, start as int);
        } else {
            lemma_last_component_region(p, n as int);
            reveal_strlit("4913");
            assert(last_component(p).len() == 0);
            assert("4913"@.len() == 4);
        }
        assert(last_component(p) != "4913"@);
        assert(!has_component(p, ".densky"@)) by {
            assert forall|a: int, b: int| is_component_at(p, a, b) implies p.subrange(a, b)
                != ".densky"@ by {
                if b == n {
                    assert(a == start);
                    assert(a < b);
                }
            }
        }
        assert(spec_is_valid_filename(p));
    }
    true
}

/// In a path whose region `[start, i)` is slash-free and starts at a
/// boundary, the only component that can end at `i` is `[start, i)` itself.
proof fn lemma_only_component_here(p: Seq<char>, start: int, i: int)
    requires
        0 <= start <= i <= p.len(),
        start == 0 || p[start - 1] == '/',
        forall|k: int| start <= k < i ==> p[k] != '/',
    ensures
        forall|a: int, b: int| is_component_at(p, a, b) && b == i ==> a == start,
{
    assert forall|a: int, b: int| is_component_at(p, a, b) && b == i implies a == start by {
        if a < start {
            assert(start >= 1);
            assert(a <= start - 1 < b);
            assert(p[start - 1] == '/');
            assert(false);
        }
        if a > start {
            assert(a >= 1);
            assert(start <= a - 1 < i);
            assert(p[a - 1] != '/');
            assert(p[a - 1] == '/');
            assert(false);
        }
    }
}

} // verus!
