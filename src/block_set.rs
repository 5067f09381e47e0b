//! Ordering of block lists: a stable sort by (level, target display), and removal
//! of every block of a level.
use vstd::prelude::*;

use crate::blocks::ExtMetadataBlock;

verus! {

/// The order of sort keys: by level, then by target display.
pub open spec fn key_le(a: (u8, u16), b: (u8, u16)) -> bool {
    a.0 < b.0 || (a.0 == b.0 && a.1 <= b.1)
}

pub open spec fn sorted_by_key(s: Seq<ExtMetadataBlock>) -> bool {
    forall|i: int, j: int|
        0 <= i < j < s.len() ==> key_le(#[trigger] s[i].spec_sort_key(), #[trigger] s[j].spec_sort_key())
}

/// Some block of `s` has the sort key `k`.
pub open spec fn has_key(s: Seq<ExtMetadataBlock>, k: (u8, u16)) -> bool {
    exists|i: int| 0 <= i < s.len() && #[trigger] s[i].spec_sort_key() == k
}

/// The position after the last block whose key is not above `k`.
pub open spec fn upper_bound(s: Seq<ExtMetadataBlock>, k: (u8, u16)) -> nat
    decreases s.len(),
{
    if s.len() == 0 {
        0
    } else if key_le(s.last().spec_sort_key(), k) {
        s.len()
    } else {
        upper_bound(s.drop_last(), k)
    }
}

/// `b` inserted after every block whose key is not above its own.
pub open spec fn insert_sorted(s: Seq<ExtMetadataBlock>, b: ExtMetadataBlock) -> Seq<
    ExtMetadataBlock,
> {
    s.insert(upper_bound(s, b.spec_sort_key()) as int, b)
}

/// The stable sort of `s` by key: each block in turn goes after the blocks before it
/// whose key is not above its own, so that blocks of equal keys keep their order.
pub open spec fn stable_sort(s: Seq<ExtMetadataBlock>) -> Seq<ExtMetadataBlock>
    decreases s.len(),
{
    if s.len() == 0 {
        s
    } else {
        insert_sorted(stable_sort(s.drop_last()), s.last())
    }
}

/// `s` without its blocks of level `level`, the others in their order.
pub open spec fn without_level(s: Seq<ExtMetadataBlock>, level: u8) -> Seq<ExtMetadataBlock>
    decreases s.len(),
{
    if s.len() == 0 {
        s
    } else if s.last().spec_level() == level {
        without_level(s.drop_last(), level)
    } else {
        without_level(s.drop_last(), level).push(s.last())
    }
}

proof fn lemma_key_le_trans(a: (u8, u16), b: (u8, u16), c: (u8, u16))
    requires
        key_le(a, b),
        key_le(b, c),
    ensures
        key_le(a, c),
{
}

proof fn lemma_upper_bound(s: Seq<ExtMetadataBlock>, k: (u8, u16))
    ensures
        upper_bound(s, k) <= s.len(),
        forall|i: int|
            upper_bound(s, k) <= i < s.len() ==> !key_le(#[trigger] s[i].spec_sort_key(), k),
        upper_bound(s, k) > 0 ==> key_le(s[upper_bound(s, k) - 1].spec_sort_key(), k),
    decreases s.len(),
{
    if s.len() > 0 && !key_le(s.last().spec_sort_key(), k) {
        let t = s.drop_last();
        lemma_upper_bound(t, k);
        assert forall|i: int| upper_bound(s, k) <= i < s.len() implies !key_le(
            #[trigger] s[i].spec_sort_key(),
            k,
        ) by {
            if i < t.len() {
                assert(s[i] == t[i]);
            }
        }
    }
}

/// Inserting after the upper bound keeps a sorted list sorted.
pub proof fn lemma_insert_sorted(s: Seq<ExtMetadataBlock>, b: ExtMetadataBlock)
    requires
        sorted_by_key(s),
    ensures
        sorted_by_key(insert_sorted(s, b)),
        insert_sorted(s, b).len() == s.len() + 1,
{
    let k = b.spec_sort_key();
    let p = upper_bound(s, k) as int;
    lemma_upper_bound(s, k);
    let t = insert_sorted(s, b);
    assert forall|i: int, j: int| 0 <= i < j < t.len() implies key_le(
        #[trigger] t[i].spec_sort_key(),
        #[trigger] t[j].spec_sort_key(),
    ) by {
        if i < p && j < p {
            assert(t[i] == s[i] && t[j] == s[j]);
        } else if i < p && j == p {
            assert(t[i] == s[i]);
            if i < p - 1 {
                lemma_key_le_trans(s[i].spec_sort_key(), s[p - 1].spec_sort_key(), k);
            }
        } else if i < p && j > p {
            assert(t[i] == s[i] && t[j] == s[j - 1]);
        } else if i == p {
            assert(t[j] == s[j - 1]);
            assert(!key_le(s[j - 1].spec_sort_key(), k));
        } else {
            assert(t[i] == s[i - 1] && t[j] == s[j - 1]);
        }
    }
}

/// Ordering: the stable sort of any list is sorted by key and keeps its length.
pub proof fn lemma_stable_sort_sorted(s: Seq<ExtMetadataBlock>)
    ensures
        sorted_by_key(stable_sort(s)),
        stable_sort(s).len() == s.len(),
    decreases s.len(),
{
    if s.len() > 0 {
        lemma_stable_sort_sorted(s.drop_last());
        lemma_insert_sorted(stable_sort(s.drop_last()), s.last());
    }
}

pub proof fn lemma_without_level_len(s: Seq<ExtMetadataBlock>, level: u8)
    ensures
        without_level(s, level).len() <= s.len(),
        forall|i: int|
            0 <= i < without_level(s, level).len() ==> (#[trigger] without_level(s, level)[i]).spec_level()
                != level,
        forall|i: int|
            0 <= i < without_level(s, level).len() ==> s.contains(
                #[trigger] without_level(s, level)[i],
            ),
    decreases s.len(),
{
    if s.len() > 0 {
        let t = s.drop_last();
        lemma_without_level_len(t, level);
        let w = without_level(s, level);
        assert forall|i: int| 0 <= i < w.len() implies s.contains(#[trigger] w[i]) by {
            if i < without_level(t, level).len() {
                let x = w[i];
                assert(t.contains(x));
                let j = choose|j: int| 0 <= j < t.len() && t[j] == x;
                assert(s[j] == x);
            } else {
                assert(s[s.len() - 1] == w[i]);
            }
        }
    }
}

/// Inserting a block adds it to the blocks held, whatever the position.
proof fn lemma_insert_multiset(s: Seq<ExtMetadataBlock>, p: int, b: ExtMetadataBlock)
    requires
        0 <= p <= s.len(),
    ensures
        s.insert(p, b).to_multiset() == s.to_multiset().insert(b),
{
    broadcast use vstd::seq_lib::group_to_multiset_ensures;

    let t = s.insert(p, b);
    assert(t.remove(p) =~= s);
    assert(t[p] == b);
    assert(t.contains(b));
    assert(t.to_multiset() =~= s.to_multiset().insert(b));
}

/// The stable sort only reorders: it holds the same blocks, as often, as its input.
pub proof fn lemma_stable_sort_permutes(s: Seq<ExtMetadataBlock>)
    ensures
        stable_sort(s).to_multiset() == s.to_multiset(),
    decreases s.len(),
{
    broadcast use vstd::seq_lib::group_to_multiset_ensures;

    if s.len() > 0 {
        let t = s.drop_last();
        lemma_stable_sort_permutes(t);
        lemma_stable_sort_sorted(t);
        lemma_upper_bound(stable_sort(t), s.last().spec_sort_key());
        lemma_insert_multiset(
            stable_sort(t),
            upper_bound(stable_sort(t), s.last().spec_sort_key()) as int,
            s.last(),
        );
        assert(t.push(s.last()) =~= s);
    } else {
        assert(s =~= Seq::<ExtMetadataBlock>::empty());
    }
}

/// The stable sort only moves blocks: each block of the result is one of the input.
pub proof fn lemma_stable_sort_members(s: Seq<ExtMetadataBlock>)
    ensures
        forall|i: int| 0 <= i < stable_sort(s).len() ==> s.contains(#[trigger] stable_sort(s)[i]),
    decreases s.len(),
{
    lemma_stable_sort_sorted(s);
    if s.len() > 0 {
        let t = s.drop_last();
        lemma_stable_sort_members(t);
        lemma_stable_sort_sorted(t);
        let r = stable_sort(t);
        let p = upper_bound(r, s.last().spec_sort_key()) as int;
        lemma_upper_bound(r, s.last().spec_sort_key());
        let out = stable_sort(s);
        assert forall|i: int| 0 <= i < out.len() implies s.contains(#[trigger] out[i]) by {
            let x = out[i];
            if i == p {
                assert(s[s.len() - 1] == x);
            } else {
                let j = if i < p {
                    i
                } else {
                    i - 1
                };
                assert(x == r[j]);
                assert(t.contains(x));
                let m = choose|m: int| 0 <= m < t.len() && t[m] == x;
                assert(s[m] == x);
            }
        }
    }
}

/// The first block of `v` with the sort key `k`.
pub fn find_key(v: &Vec<ExtMetadataBlock>, k: (u8, u16)) -> (r: Option<usize>)
    ensures
        r is None <==> !has_key(v@, k),
        r is Some ==> r->0 < v@.len() && v@[r->0 as int].spec_sort_key() == k,
{
    let mut i: usize = 0;
    while i < v.len()
        invariant
            i <= v@.len(),
            forall|j: int| 0 <= j < i ==> #[trigger] v@[j].spec_sort_key() != k,
        decreases v.len() - i,
    {
        let key = v[i].sort_key();
        if key.0 == k.0 && key.1 == k.1 {
            return Some(i);
        }
        i = i + 1;
    }
    None
}

/// The position after which a block of key `k` goes in `v`.
fn upper_bound_of(v: &Vec<ExtMetadataBlock>, k: (u8, u16)) -> (p: usize)
    ensures
        p == upper_bound(v@, k),
{
    let mut i: usize = v.len();
    assert(v@.subrange(0, i as int) =~= v@);
    loop
        invariant
            i <= v@.len(),
            upper_bound(v@, k) == upper_bound(v@.subrange(0, i as int), k),
        ensures
            i == upper_bound(v@, k),
        decreases i,
    {
        if i == 0 {
            assert(v@.subrange(0, 0) =~= Seq::<ExtMetadataBlock>::empty());
            break;
        }
        let key = v[i - 1].sort_key();
        assert(v@.subrange(0, i as int).last() == v@[i - 1]);
        if key.0 < k.0 || (key.0 == k.0 && key.1 <= k.1) {
            assert(upper_bound(v@.subrange(0, i as int), k) == i);
            break;
        }
        assert(v@.subrange(0, i as int).drop_last() =~= v@.subrange(0, i - 1));
        i = i - 1;
    }
    i
}

/// Sorts the blocks by key, keeping the order of blocks of equal keys.
pub fn sort_blocks(v: &mut Vec<ExtMetadataBlock>)
    ensures
        final(v)@ == stable_sort(old(v)@),
        sorted_by_key(final(v)@),
        final(v)@.to_multiset() == old(v)@.to_multiset(),
{
    let ghost orig = v@;
    let mut out: Vec<ExtMetadataBlock> = Vec::new();
    let mut k: usize = 0;
    let n = v.len();
    assert(orig.subrange(0, 0) =~= Seq::<ExtMetadataBlock>::empty());
    while v.len() > 0
        invariant
            orig == old(v)@,
            n == orig.len(),
            k + v@.len() == n,
            v@ == orig.subrange(k as int, n as int),
            out@ == stable_sort(orig.subrange(0, k as int)),
        decreases v@.len(),
    {
        let b = v.remove(0);
        let p = upper_bound_of(&out, b.sort_key());
        proof {
            lemma_upper_bound(out@, b.spec_sort_key());
        }
        out.insert(p, b);
        proof {
            let t = orig.subrange(0, k + 1);
            assert(t.drop_last() =~= orig.subrange(0, k as int));
            assert(t.last() == b);
            assert(v@ =~= orig.subrange(k + 1, n as int));
        }
        k = k + 1;
    }
    assert(orig.subrange(0, n as int) =~= orig);
    *v = out;
    proof {
        lemma_stable_sort_sorted(orig);
        lemma_stable_sort_permutes(orig);
    }
}

/// Drops every block of level `level`, keeping the others in their order.
pub fn retain_other_levels(v: &mut Vec<ExtMetadataBlock>, level: u8)
    ensures
        final(v)@ == without_level(old(v)@, level),
{
    let ghost orig = v@;
    let mut out: Vec<ExtMetadataBlock> = Vec::new();
    let mut k: usize = 0;
    let n = v.len();
    assert(orig.subrange(0, 0) =~= Seq::<ExtMetadataBlock>::empty());
    while v.len() > 0
        invariant
            orig == old(v)@,
            n == orig.len(),
            k + v@.len() == n,
            v@ == orig.subrange(k as int, n as int),
            out@ == without_level(orig.subrange(0, k as int), level),
        decreases v@.len(),
    {
        let b = v.remove(0);
        proof {
            let t = orig.subrange(0, k + 1);
            assert(t.drop_last() =~= orig.subrange(0, k as int));
            assert(t.last() == b);
            assert(v@ =~= orig.subrange(k + 1, n as int));
        }
        if b.level() != level {
            out.push(b);
        }
        k = k + 1;
    }
    assert(orig.subrange(0, n as int) =~= orig);
    *v = out;
}

} // verus!
