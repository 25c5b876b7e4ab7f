use vstd::prelude::*;

use crate::bytes::push_bytes;

verus! {

/// `b` appended to `a` as a further path segment, with one `/` between them
/// where `a` does not already end in one. An empty side leaves the other.
pub open spec fn join_path(a: Seq<u8>, b: Seq<u8>) -> Seq<u8> {
    if a.len() == 0 {
        b
    } else if b.len() == 0 {
        a
    } else if a.last() == 0x2f {
        a + b
    } else {
        a + seq![0x2fu8] + b
    }
}

/// Whether a `..` segment starts at index `i` of `t`.
pub open spec fn parent_segment_at(t: Seq<u8>, i: int) -> bool {
    &&& 0 <= i
    &&& i + 1 < t.len()
    &&& t[i] == 0x2e
    &&& t[i + 1] == 0x2e
    &&& (i == 0 || t[i - 1] == 0x2f)
    &&& (i + 2 == t.len() || t[i + 2] == 0x2f)
}

/// Whether a root-relative target stays below the root once joined onto it:
/// it is not absolute and none of its segments is `..`.
pub open spec fn is_confined(t: Seq<u8>) -> bool {
    &&& !(t.len() > 0 && t[0] == 0x2f)
    &&& forall|i: int| 0 <= i < t.len() ==> !#[trigger] parent_segment_at(t, i)
}

/// The absolute path that `target` resolves to under `root`, or None where it
/// would leave the root.
pub open spec fn resolved_path(root: Seq<u8>, target: Seq<u8>) -> Option<Seq<u8>> {
    if is_confined(target) {
        Some(join_path(root, target))
    } else {
        None
    }
}

/// Joins `b` onto `a` (see [`join_path`]).
pub fn join(a: &[u8], b: &[u8]) -> (r: Vec<u8>)
    requires
        a@.len() + b@.len() + 1 <= usize::MAX,
    ensures
        r@ == join_path(a@, b@),
{
    let mut out: Vec<u8> = Vec::new();
    push_bytes(&mut out, a);
    if a.len() > 0 && b.len() > 0 && a[a.len() - 1] != 0x2f {
        out.push(0x2f);
    }
    push_bytes(&mut out, b);
    proof {
        if a@.len() == 0 {
            assert(out@ =~= b@);
        } else if b@.len() == 0 {
            assert(out@ =~= a@);
        } else if a@.last() == 0x2f {
        } else {
            assert(out@ =~= a@ + seq![0x2fu8] + b@);
        }
    }
    out
}

fn has_parent_segment_at(t: &[u8], i: usize) -> (r: bool)
    requires
        i < t@.len(),
    ensures
        r == parent_segment_at(t@, i as int),
{
    t.len() - i > 1 && t[i] == 0x2e && t[i + 1] == 0x2e && (i == 0 || t[i - 1] == 0x2f) && (
    t.len() - i == 2 || t[i + 2] == 0x2f)
}

/// Whether `target` stays below the root (see [`is_confined`]).
pub fn confined(target: &[u8]) -> (r: bool)
    ensures
        r == is_confined(target@),
{
    if target.len() > 0 && target[0] == 0x2f {
        return false;
    }
    let mut i: usize = 0;
    while i < target.len()
        invariant
            i <= target@.len(),
            forall|j: int| 0 <= j < i ==> !#[trigger] parent_segment_at(target@, j),
        decreases target@.len() - i,
    {
        if has_parent_segment_at(target, i) {
            return false;
        }
        i += 1;
    }
    true
}

/// Resolves a root-relative target against `root`: the joined path, or None
/// where the target would leave the root.
pub fn resolve(root: &[u8], target: &[u8]) -> (r: Option<Vec<u8>>)
    requires
        root@.len() + target@.len() + 1 <= usize::MAX,
    ensures
        match r {
            Some(p) => resolved_path(root@, target@) == Some(p@),
            None => resolved_path(root@, target@) is None,
        },
{
    if confined(target) {
        Some(join(root, target))
    } else {
        None
    }
}

/// A target that resolves lies below the root: the root is a prefix of the
/// resolved path, and what follows it holds no `..` segment. The empty target
/// resolves to the root itself.
pub proof fn lemma_resolved_below_root(root: Seq<u8>, target: Seq<u8>)
    ensures
        resolved_path(root, target) is Some ==> {
            let p = resolved_path(root, target)->Some_0;
            &&& p.len() >= root.len()
            &&& p.subrange(0, root.len() as int) == root
        },
        resolved_path(root, seq![]) == Some(root),
{
    if is_confined(target) {
        let p = join_path(root, target);
        if root.len() == 0 {
        } else if target.len() == 0 {
            assert(p.subrange(0, root.len() as int) =~= root);
        } else if root.last() == 0x2f {
            assert(p.subrange(0, root.len() as int) =~= root);
        } else {
            assert(p.subrange(0, root.len() as int) =~= root);
        }
        assert(p.subrange(0, root.len() as int) =~= root);
    }
    assert(is_confined(seq![]));
}

} // verus!
