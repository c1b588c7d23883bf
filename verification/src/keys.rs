//! Walking the keys of an ordered map in ascending order.

use std::collections::BTreeMap;
use vstd::prelude::*;
use vstd::std_specs::btree::*;
use vstd::std_specs::cmp::OrdSpec;
use vstd::std_specs::iter::IteratorSpec;

verus! {

/// Whether each element of `s` is strictly smaller than all that follow it.
pub open spec fn ascending(s: Seq<u64>) -> bool {
    forall|i: int, j: int| 0 <= i < j < s.len() ==> s[i] < s[j]
}

/// Whether `s` lists exactly the members of `dom`, smallest first.
pub open spec fn lists_keys(s: Seq<u64>, dom: Set<u64>) -> bool {
    &&& ascending(s)
    &&& forall|k: u64| s.contains(k) <==> dom.contains(k)
}

/// The members of `dom`, smallest first. Meaningful for finite sets: see
/// [`lemma_sorted_keys`].
pub open spec fn sorted_keys(dom: Set<u64>) -> Seq<u64> {
    choose|s: Seq<u64>| lists_keys(s, dom)
}

/// A finite, non-empty set of keys has a largest member.
proof fn lemma_has_largest(dom: Set<u64>)
    requires
        dom.finite(),
        dom.len() > 0,
    ensures
        exists|m: u64| dom.contains(m) && forall|k: u64| dom.contains(k) ==> k <= m,
    decreases dom.len(),
{
    let a = dom.choose();
    let rest = dom.remove(a);
    if rest.len() == 0 {
        assert forall|k: u64| dom.contains(k) implies k <= a by {
            if k != a {
                assert(rest.contains(k));
            }
        }
    } else {
        lemma_has_largest(rest);
        let r = choose|m: u64| rest.contains(m) && forall|k: u64| rest.contains(k) ==> k <= m;
        let m = if a > r { a } else { r };
        assert forall|k: u64| dom.contains(k) implies k <= m by {
            if k != a {
                assert(rest.contains(k));
            }
        }
        assert(dom.contains(m));
    }
}

/// Some sequence lists the members of a finite set in ascending order.
proof fn lemma_listing_exists(dom: Set<u64>)
    requires
        dom.finite(),
    ensures
        exists|s: Seq<u64>| lists_keys(s, dom),
    decreases dom.len(),
{
    if dom.len() == 0 {
        let s = Seq::<u64>::empty();
        assert forall|k: u64| s.contains(k) <==> dom.contains(k) by {
            if dom.contains(k) {
                assert(dom.len() > 0);
            }
        }
        assert(lists_keys(s, dom));
    } else {
        lemma_has_largest(dom);
        let m = choose|m: u64| dom.contains(m) && forall|k: u64| dom.contains(k) ==> k <= m;
        let rest = dom.remove(m);
        lemma_listing_exists(rest);
        let r = choose|s: Seq<u64>| lists_keys(s, rest);
        let s = r.push(m);
        assert forall|i: int, j: int| 0 <= i < j < s.len() implies s[i] < s[j] by {
            assert(r.contains(s[i]));
            if j < r.len() {
            } else {
                assert(rest.contains(s[i]));
            }
        }
        assert forall|k: u64| s.contains(k) <==> dom.contains(k) by {
            if s.contains(k) {
                let i = choose|i: int| 0 <= i < s.len() && s[i] == k;
                if i < r.len() {
                    assert(r.contains(k));
                }
            }
            if dom.contains(k) {
                if k == m {
                    assert(s[r.len() as int] == k);
                } else {
                    assert(rest.contains(k));
                    let i = choose|i: int| 0 <= i < r.len() && r[i] == k;
                    assert(s[i] == k);
                }
            }
        }
        assert(lists_keys(s, dom));
    }
}

/// For a finite set, [`sorted_keys`] is ascending and holds exactly the set's
/// members.
pub proof fn lemma_sorted_keys(dom: Set<u64>)
    requires
        dom.finite(),
    ensures
        lists_keys(sorted_keys(dom), dom),
{
    lemma_listing_exists(dom);
}

/// Two ascending sequences with the same members are the same sequence.
pub proof fn lemma_listing_unique(a: Seq<u64>, b: Seq<u64>, dom: Set<u64>)
    requires
        lists_keys(a, dom),
        lists_keys(b, dom),
    ensures
        a == b,
    decreases a.len(),
{
    if a.len() == 0 {
        if b.len() > 0 {
            assert(b.contains(b[0]));
            assert(a.contains(b[0]));
        }
        assert(a =~= b);
    } else {
        let x = a.last();
        assert(a.contains(x));
        assert(b.contains(x));
        let y = b.last();
        assert(b.contains(y));
        assert(a.contains(y));
        let ix = choose|i: int| 0 <= i < b.len() && b[i] == x;
        let iy = choose|i: int| 0 <= i < a.len() && a[i] == y;
        assert(x == y);
        let rest = dom.remove(x);
        let a0 = a.drop_last();
        let b0 = b.drop_last();
        assert forall|k: u64| a0.contains(k) <==> rest.contains(k) by {
            if a0.contains(k) {
                let i = choose|i: int| 0 <= i < a0.len() && a0[i] == k;
                assert(a[i] == k);
                assert(a.contains(k));
            }
            if rest.contains(k) {
                assert(a.contains(k));
                let i = choose|i: int| 0 <= i < a.len() && a[i] == k;
                assert(a0[i] == k);
            }
        }
        assert forall|k: u64| b0.contains(k) <==> rest.contains(k) by {
            if b0.contains(k) {
                let i = choose|i: int| 0 <= i < b0.len() && b0[i] == k;
                assert(b[i] == k);
                assert(b.contains(k));
            }
            if rest.contains(k) {
                assert(b.contains(k));
                let i = choose|i: int| 0 <= i < b.len() && b[i] == k;
                assert(b0[i] == k);
            }
        }
        lemma_listing_unique(a0, b0, rest);
        assert(a =~= a0.push(x));
        assert(b =~= b0.push(y));
    }
}

/// A walk over a map comes by its keys in ascending order, misses none, and
/// yields each key with its value: `all` is what the walk hands out, `keys`
/// the keys of that.
proof fn lemma_walk<V>(m: &BTreeMap<u64, V>, all: Seq<(&u64, &V)>, keys: Seq<u64>)
    requires
        all == m.iter().remaining(),
        keys.len() == all.len(),
        forall|i: int| 0 <= i < all.len() ==> keys[i] == *(#[trigger] all[i]).0,
        increasing_seq(keys),
    ensures
        keys == sorted_keys(m@.dom()),
        lists_keys(keys, m@.dom()),
        forall|i: int|
            0 <= i < keys.len() ==> m@.contains_key(#[trigger] keys[i]) && m@[keys[i]]
                == *all[i].1,
{
    broadcast use group_btree_axioms;

    assert forall|i: int, j: int| 0 <= i < j < keys.len() implies keys[i] < keys[j] by {
        assert(keys[i].cmp_spec(&keys[j]) is Less);
    }
    assert forall|k: u64| keys.contains(k) <==> m@.dom().contains(k) by {
        if keys.contains(k) {
            let i = choose|i: int| 0 <= i < keys.len() && keys[i] == k;
            assert(m@.contains_key(*all[i].0));
        }
        if m@.dom().contains(k) {
            assert(m@.contains_key(k));
            let p = (&k, &m@[k]);
            assert(all.contains(p));
            let i = choose|i: int| 0 <= i < all.len() && all[i] == p;
            assert(keys[i] == k);
        }
    }
    lemma_sorted_keys(m@.dom());
    lemma_listing_unique(keys, sorted_keys(m@.dom()), m@.dom());
    assert forall|i: int| 0 <= i < keys.len() implies m@.contains_key(#[trigger] keys[i])
        && m@[keys[i]] == *all[i].1 by {
        assert(m@.contains_key(*all[i].0));
        assert(m@[*all[i].0] == *all[i].1);
    }
}

/// The keys of `m`, smallest first.
pub fn keys_of<V>(m: &BTreeMap<u64, V>) -> (ks: Vec<u64>)
    ensures
        ks@ == sorted_keys(m@.dom()),
        lists_keys(ks@, m@.dom()),
{
    broadcast use group_btree_axioms;

    let mut ks: Vec<u64> = Vec::new();
    let ghost all = m.iter().remaining();
    for kv in it: m.iter()
        invariant
            it.seq() == all,
            ks@.len() == it.index(),
            forall|i: int| 0 <= i < ks@.len() ==> ks@[i] == *(#[trigger] all[i]).0,
    {
        ks.push(*kv.0);
    }
    proof {
        assert(ks@ =~= all.map_values(|kv: (&u64, &V)| *kv.0));
        lemma_walk(m, all, ks@);
    }
    ks
}

/// The entries of `m`, smallest key first.
pub fn entries_of<V: Copy>(m: &BTreeMap<u64, V>) -> (es: Vec<(u64, V)>)
    ensures
        es@.len() == sorted_keys(m@.dom()).len(),
        forall|i: int|
            0 <= i < es@.len() ==> {
                &&& (#[trigger] es@[i]).0 == sorted_keys(m@.dom())[i]
                &&& m@.contains_key(es@[i].0)
                &&& es@[i].1 == m@[es@[i].0]
            },
{
    broadcast use group_btree_axioms;

    let mut es: Vec<(u64, V)> = Vec::new();
    let ghost all = m.iter().remaining();
    for kv in it: m.iter()
        invariant
            it.seq() == all,
            es@.len() == it.index(),
            forall|i: int|
                0 <= i < es@.len() ==> (#[trigger] es@[i]).0 == *all[i].0 && es@[i].1
                    == *all[i].1,
    {
        es.push((*kv.0, *kv.1));
    }
    proof {
        let keys = es@.map_values(|e: (u64, V)| e.0);
        assert(keys =~= all.map_values(|kv: (&u64, &V)| *kv.0));
        lemma_walk(m, all, keys);
        assert forall|i: int| 0 <= i < es@.len() implies {
            &&& (#[trigger] es@[i]).0 == sorted_keys(m@.dom())[i]
            &&& m@.contains_key(es@[i].0)
            &&& es@[i].1 == m@[es@[i].0]
        } by {
            assert(keys[i] == es@[i].0);
        }
    }
    es
}

} // verus!
