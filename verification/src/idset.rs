//! Sets of ids kept as strictly increasing vectors: the form in which the
//! spatial service reports the shards near a player.
use vstd::prelude::*;

verus! {

/// Strictly increasing, hence sorted and without duplicates.
pub open spec fn strictly_increasing(s: Seq<u32>) -> bool {
    forall|i: int, j: int| 0 <= i < j < s.len() ==> s[i] < s[j]
}

/// Adds `x` to a strictly increasing vector, keeping it so.
pub fn insert_sorted(v: &mut Vec<u32>, x: u32)
    requires
        strictly_increasing(old(v)@),
    ensures
        strictly_increasing(final(v)@),
        forall|y: u32| final(v)@.contains(y) <==> (old(v)@.contains(y) || y == x),
{
    let mut i: usize = 0;
    while i < v.len() && v[i] < x
        invariant
            i <= v@.len(),
            v@ == old(v)@,
            forall|k: int| 0 <= k < i ==> v@[k] < x,
        decreases v@.len() - i,
    {
        i = i + 1;
    }
    if i < v.len() && v[i] == x {
        assert(v@[i as int] == x);
        return;
    }
    let ghost before = v@;
    assert(before == old(v)@);
    v.insert(i, x);
    assert forall|a: int, b: int| 0 <= a < b < v@.len() implies v@[a] < v@[b] by {
        if b < i {
        } else if b == i {
        } else if a < i {
            assert(before[b - 1] > x || before[b - 1] >= x);
        } else if a == i {
            assert(before[b - 1] >= x);
            assert(before[b - 1] != x);
        } else {
        }
    }
    assert forall|y: u32| #[trigger] v@.contains(y) <==> (old(v)@.contains(y) || y == x) by {
        if v@.contains(y) {
            let k = choose|k: int| 0 <= k < v@.len() && v@[k] == y;
            if k < i {
                assert(before[k] == y);
            } else if k > i {
                assert(before[k - 1] == y);
            }
        }
        if before.contains(y) {
            let k = choose|k: int| 0 <= k < before.len() && before[k] == y;
            if k < i {
                assert(v@[k] == y);
            } else {
                assert(v@[k + 1] == y);
            }
        }
        if y == x {
            assert(v@[i as int] == x);
        }
    }
}

/// Adds every element of `src` to the strictly increasing vector `dst`.
pub fn merge_sorted(dst: &mut Vec<u32>, src: &Vec<u32>)
    requires
        strictly_increasing(old(dst)@),
    ensures
        strictly_increasing(final(dst)@),
        forall|y: u32| final(dst)@.contains(y) <==> (old(dst)@.contains(y) || src@.contains(y)),
{
    let mut i: usize = 0;
    while i < src.len()
        invariant
            i <= src@.len(),
            strictly_increasing(dst@),
            forall|y: u32|
                dst@.contains(y) <==> (old(dst)@.contains(y) || src@.subrange(0, i as int).contains(
                    y,
                )),
        decreases src@.len() - i,
    {
        let ghost pre = src@.subrange(0, i as int);
        let ghost post = src@.subrange(0, i + 1);
        assert(post =~= pre.push(src@[i as int]));
        insert_sorted(dst, src[i]);
        assert forall|y: u32| dst@.contains(y) <==> (old(dst)@.contains(y) || post.contains(y)) by {
            if pre.contains(y) {
                let k = choose|k: int| 0 <= k < pre.len() && pre[k] == y;
                assert(post[k] == y);
            }
            if post.contains(y) {
                let k = choose|k: int| 0 <= k < post.len() && post[k] == y;
                if k < i {
                    assert(pre[k] == y);
                }
            }
            assert(post[i as int] == src@[i as int]);
        }
        i = i + 1;
    }
    assert(src@.subrange(0, src@.len() as int) =~= src@);
}


/// Whether two vectors hold the same ids in the same order.
pub fn same_ids(a: &Vec<u32>, b: &Vec<u32>) -> (r: bool)
    ensures
        r == (a@ == b@),
{
    if a.len() != b.len() {
        return false;
    }
    let mut i: usize = 0;
    while i < a.len()
        invariant
            a@.len() == b@.len(),
            i <= a@.len(),
            forall|k: int| 0 <= k < i ==> a@[k] == b@[k],
        decreases a@.len() - i,
    {
        if a[i] != b[i] {
            return false;
        }
        i = i + 1;
    }
    assert(a@ =~= b@);
    true
}

/// A copy of the ids.
pub fn copy_ids(a: &Vec<u32>) -> (r: Vec<u32>)
    ensures
        r@ == a@,
{
    let mut r: Vec<u32> = Vec::new();
    let mut i: usize = 0;
    while i < a.len()
        invariant
            i <= a@.len(),
            r@ == a@.subrange(0, i as int),
        decreases a@.len() - i,
    {
        r.push(a[i]);
        assert(r@ =~= a@.subrange(0, i + 1));
        i = i + 1;
    }
    assert(a@.subrange(0, a@.len() as int) =~= a@);
    r
}


/// The first `i + 1` ids hold what the first `i` hold, and the next one.
pub(crate) proof fn lemma_prefix_grows(ids: Seq<u32>, i: int)
    requires
        0 <= i < ids.len(),
    ensures
        forall|x: u32| ids.subrange(0, i + 1).contains(x) <==> ids.subrange(0, i).contains(x) || x == ids[i],
{
    let s0 = ids.subrange(0, i);
    let s1 = ids.subrange(0, i + 1);
    assert forall|x: u32| s1.contains(x) <==> s0.contains(x) || x == ids[i] by {
        if s1.contains(x) {
            let j = choose|j: int| 0 <= j < s1.len() && s1[j] == x;
            if j < i {
                assert(s0[j] == x);
            }
        }
        if s0.contains(x) {
            let j = choose|j: int| 0 <= j < s0.len() && s0[j] == x;
            assert(s1[j] == x);
        }
        if x == ids[i] {
            assert(s1[i] == x);
        }
    }
}

/// In a list without repetition, an id is not among those before it.
pub(crate) proof fn lemma_next_is_new(ids: Seq<u32>, i: int)
    requires
        0 <= i < ids.len(),
        ids.no_duplicates(),
    ensures
        !ids.subrange(0, i).contains(ids[i]),
{
    let s0 = ids.subrange(0, i);
    if s0.contains(ids[i]) {
        let j = choose|j: int| 0 <= j < s0.len() && s0[j] == ids[i];
        assert(ids[j] == ids[i]);
    }
}

/// Adding the id at `i` of a list without repetition to a list without
/// repetition drawn from the ids before `i` keeps it without repetition.
pub(crate) proof fn lemma_push_new(ks: Seq<u32>, k: u32, ids: Seq<u32>, i: int)
    requires
        0 <= i < ids.len(),
        ids[i] == k,
        ks.no_duplicates(),
        !ids.subrange(0, i).contains(k),
        forall|s: u32| ks.contains(s) ==> ids.subrange(0, i).contains(s),
    ensures
        ks.push(k).no_duplicates(),
        forall|s: u32| ks.push(k).contains(s) <==> ks.contains(s) || s == k,
{
    let t = ks.push(k);
    assert(!ks.contains(k));
    assert forall|s: u32| t.contains(s) <==> ks.contains(s) || s == k by {
        if ks.contains(s) {
            let m = choose|m: int| 0 <= m < ks.len() && ks[m] == s;
            assert(t[m] == s);
        }
        if s == k {
            assert(t[ks.len() as int] == s);
        }
    }
}

} // verus!
