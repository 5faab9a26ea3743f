use vstd::prelude::*;

verus! {

/// Whether `path`, read literally, is the path `base` itself or lies under
/// it: `base` is a character-for-character prefix of `path`, and the prefix
/// ends at a component boundary.
pub open spec fn starts_with_path(path: Seq<char>, base: Seq<char>) -> bool {
    &&& base.len() <= path.len()
    &&& path.take(base.len() as int) == base
    &&& (path.len() == base.len() || path[base.len() as int] == '/' || (base.len() > 0 && base[
        base.len() - 1
    ] == '/'))
}

/// Whether the component of `path` that begins at index `i` is the
/// parent-directory marker `..`.
pub open spec fn parent_component_at(path: Seq<char>, i: int) -> bool {
    &&& 0 <= i
    &&& i + 2 <= path.len()
    &&& path[i] == '.'
    &&& path[i + 1] == '.'
    &&& (i == 0 || path[i - 1] == '/')
    &&& (i + 2 == path.len() || path[i + 2] == '/')
}

/// Whether any component of `path` is the parent-directory marker `..`.
pub open spec fn has_parent_component(path: Seq<char>) -> bool {
    exists|i: int| #[trigger] parent_component_at(path, i)
}

/// Tests whether `path` equals `base` or lies lexically under it.
pub fn path_starts_with(path: &str, base: &str) -> (r: bool)
    ensures
        r == starts_with_path(path@, base@),
{
    let plen = path.unicode_len();
    let blen = base.unicode_len();
    if blen > plen {
        return false;
    }
    let mut i: usize = 0;
    while i < blen
        invariant
            0 <= i <= blen,
            blen <= plen,
            plen == path@.len(),
            blen == base@.len(),
            forall|k: int| 0 <= k < i ==> path@[k] == base@[k],
        decreases blen - i,
    {
        if path.get_char(i) != base.get_char(i) {
            proof {
                assert(path@.take(blen as int)[i as int] == path@[i as int]);
            }
            return false;
        }
        i = i + 1;
    }
    proof {
        assert(path@.take(blen as int) =~= base@);
    }
    if plen == blen {
        return true;
    }
    if path.get_char(blen) == '/' {
        return true;
    }
    if blen > 0 && base.get_char(blen - 1) == '/' {
        return true;
    }
    false
}

/// Scans `path` for a `..` component.
pub fn contains_parent_component(path: &str) -> (r: bool)
    ensures
        r == has_parent_component(path@),
{
    let n = path.unicode_len();
    let mut i: usize = 0;
    while n >= 2 && i <= n - 2
        invariant
            0 <= i <= n,
            n == path@.len(),
            forall|k: int| k < i ==> !#[trigger] parent_component_at(path@, k),
        decreases n - i,
    {
        let c0 = path.get_char(i);
        let c1 = path.get_char(i + 1);
        let boundary_before = i == 0 || path.get_char(i - 1) == '/';
        let boundary_after = i + 2 == n || path.get_char(i + 2) == '/';
        if c0 == '.' && c1 == '.' && boundary_before && boundary_after {
            proof {
                assert(parent_component_at(path@, i as int));
            }
            return true;
        }
        proof {
            assert(!parent_component_at(path@, i as int));
        }
        i = i + 1;
    }
    proof {
        assert forall|k: int| !#[trigger] parent_component_at(path@, k) by {
            if k >= i {
                assert(k + 2 > n);
            }
        }
    }
    false
}

} // verus!
