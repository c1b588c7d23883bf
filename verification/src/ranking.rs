//! Ranking candidate pairings: nearest first.

use crate::trade::Candidate;
use vstd::prelude::*;
use vstd::relations::{sorted_by, total_ordering};
use vstd::seq_lib::{lemma_multiset_commutative, lemma_sorted_unique};

verus! {

/// Whether `a` is settled no later than `b`: the pairing whose orders lie
/// closer together goes first. Among pairings at the same distance the
/// smaller seller goes first, then the smaller buyer, then the smaller
/// quantity, so that no two different pairings tie.
pub open spec fn nearer(a: Candidate, b: Candidate) -> bool {
    if a.score != b.score {
        a.score < b.score
    } else if a.seller.0 != b.seller.0 {
        a.seller.0 < b.seller.0
    } else if a.buyer.0 != b.buyer.0 {
        a.buyer.0 < b.buyer.0
    } else {
        a.qty <= b.qty
    }
}

/// [`nearer`] as a relation.
pub open spec fn nearer_rel() -> spec_fn(Candidate, Candidate) -> bool {
    |a: Candidate, b: Candidate| nearer(a, b)
}

/// The pairings of `cs` in the order in which they are settled.
pub open spec fn ranked(cs: Seq<Candidate>) -> Seq<Candidate> {
    cs.sort_by(nearer_rel())
}

/// [`nearer`] orders all pairings in one line.
pub proof fn lemma_nearer_total()
    ensures
        total_ordering(nearer_rel()),
{
    let r = nearer_rel();
    assert forall|a: Candidate, b: Candidate| #[trigger] r(a, b) && #[trigger] r(b, a) implies a
        == b by {
        assert(a.seller.0 == b.seller.0);
        assert(a.buyer.0 == b.buyer.0);
    }
    assert(vstd::relations::reflexive(r));
    assert(vstd::relations::antisymmetric(r));
    assert(vstd::relations::transitive(r));
    assert(vstd::relations::strongly_connected(r));
}

/// [`ranked`] puts the nearest first and neither drops nor invents a
/// pairing. It is the only ordering of `cs` that does so.
pub proof fn lemma_ranked(cs: Seq<Candidate>)
    ensures
        sorted_by(ranked(cs), nearer_rel()),
        ranked(cs).to_multiset() == cs.to_multiset(),
        forall|s: Seq<Candidate>|
            sorted_by(s, nearer_rel()) && s.to_multiset() == cs.to_multiset() ==> s == ranked(cs),
{
    lemma_nearer_total();
    cs.lemma_sort_by_ensures(nearer_rel());
    assert forall|s: Seq<Candidate>|
        sorted_by(s, nearer_rel()) && s.to_multiset() == cs.to_multiset() implies s == ranked(
        cs,
    ) by {
        lemma_sorted_unique(s, ranked(cs), nearer_rel());
    }
}

/// Whether `a` is settled no later than `b`.
pub fn comes_first(a: &Candidate, b: &Candidate) -> (r: bool)
    ensures
        r == nearer(*a, *b),
{
    if a.score != b.score {
        a.score < b.score
    } else if a.seller.0 != b.seller.0 {
        a.seller.0 < b.seller.0
    } else if a.buyer.0 != b.buyer.0 {
        a.buyer.0 < b.buyer.0
    } else {
        a.qty <= b.qty
    }
}

/// Whether `s` is ranked from position `lo` up to, not including, position
/// `hi`.
spec fn ranked_between(s: Seq<Candidate>, lo: int, hi: int) -> bool {
    forall|a: int, b: int| lo <= a < b < hi ==> nearer(#[trigger] s[a], #[trigger] s[b])
}

/// Whether `a` and `b` hold the same outside the positions from `lo` up to,
/// not including, `hi`, and the same pairings inside.
spec fn same_but_order(a: Seq<Candidate>, b: Seq<Candidate>, lo: int, hi: int) -> bool {
    &&& a.len() == b.len()
    &&& forall|k: int| 0 <= k < a.len() && (k < lo || hi <= k) ==> a[k] == b[k]
    &&& a.subrange(lo, hi).to_multiset() == b.subrange(lo, hi).to_multiset()
}

/// Merges the ranked run of `v` from `lo` to `mid` with the ranked run from
/// `mid` to `hi` into one run from `lo` to `hi`. The run is put together in
/// `scratch` and then copied back.
fn merge_runs(
    v: &mut Vec<Candidate>,
    scratch: &mut Vec<Candidate>,
    lo: usize,
    mid: usize,
    hi: usize,
)
    requires
        lo <= mid <= hi <= old(v)@.len(),
        ranked_between(old(v)@, lo as int, mid as int),
        ranked_between(old(v)@, mid as int, hi as int),
    ensures
        same_but_order(final(v)@, old(v)@, lo as int, hi as int),
        ranked_between(final(v)@, lo as int, hi as int),
        final(scratch)@.len() == hi - lo,
{
    broadcast use vstd::seq_lib::group_to_multiset_ensures;

    let ghost left = v@.subrange(lo as int, mid as int);
    let ghost right = v@.subrange(mid as int, hi as int);
    scratch.clear();
    let mut i: usize = lo;
    let mut j: usize = mid;
    proof {
        lemma_nearer_total();
        assert(left.take(0) =~= Seq::empty());
        assert(right.take(0) =~= Seq::empty());
    }
    while i < mid || j < hi
        invariant
            lo <= i <= mid <= j <= hi <= v@.len(),
            v@ == old(v)@,
            left == v@.subrange(lo as int, mid as int),
            right == v@.subrange(mid as int, hi as int),
            total_ordering(nearer_rel()),
            ranked_between(v@, lo as int, mid as int),
            ranked_between(v@, mid as int, hi as int),
            ranked_between(scratch@, 0, scratch@.len() as int),
            scratch@.len() == (i - lo) + (j - mid),
            scratch@.to_multiset() =~= left.take(i - lo).to_multiset().add(
                right.take(j - mid).to_multiset(),
            ),
            forall|k: int| 0 <= k < scratch@.len() && i < mid ==> nearer(scratch@[k], v@[i as int]),
            forall|k: int| 0 <= k < scratch@.len() && j < hi ==> nearer(scratch@[k], v@[j as int]),
        decreases (mid - i) + (hi - j),
    {
        let from_left = if i == mid {
            false
        } else if j == hi {
            true
        } else {
            comes_first(&v[i], &v[j])
        };
        let ghost before = scratch@;
        if from_left {
            let x = v[i];
            proof {
                assert(left.take(i - lo + 1) =~= left.take(i - lo).push(x));
                vstd::seq_lib::to_multiset_build(left.take(i - lo), x);
                vstd::seq_lib::to_multiset_build(before, x);
                assert forall|k: int| 0 <= k < before.len() + 1 && i + 1 < mid implies nearer(
                    before.push(x)[k],
                    v@[i + 1],
                ) by {
                    assert(nearer(v@[i as int], v@[i + 1]));
                    if k < before.len() {
                        assert(nearer_rel()(before[k], v@[i as int]));
                        assert(nearer_rel()(v@[i as int], v@[i + 1]));
                    }
                }
                assert forall|k: int| 0 <= k < before.len() + 1 && j < hi implies nearer(
                    before.push(x)[k],
                    v@[j as int],
                ) by {
                    assert(nearer_rel()(x, v@[j as int]));
                }
            }
            scratch.push(x);
            i += 1;
        } else {
            let x = v[j];
            proof {
                assert(right.take(j - mid + 1) =~= right.take(j - mid).push(x));
                vstd::seq_lib::to_multiset_build(right.take(j - mid), x);
                vstd::seq_lib::to_multiset_build(before, x);
                assert forall|k: int| 0 <= k < before.len() + 1 && j + 1 < hi implies nearer(
                    before.push(x)[k],
                    v@[j + 1],
                ) by {
                    assert(nearer(v@[j as int], v@[j + 1]));
                    if k < before.len() {
                        assert(nearer_rel()(before[k], v@[j as int]));
                        assert(nearer_rel()(v@[j as int], v@[j + 1]));
                    }
                }
                assert forall|k: int| 0 <= k < before.len() + 1 && i < mid implies nearer(
                    before.push(x)[k],
                    v@[i as int],
                ) by {
                    assert(nearer_rel()(x, v@[i as int]) || nearer_rel()(v@[i as int], x));
                }
            }
            scratch.push(x);
            j += 1;
        }
        proof {
            assert forall|a: int, b: int| 0 <= a < b < scratch@.len() implies nearer(
                #[trigger] scratch@[a],
                #[trigger] scratch@[b],
            ) by {
                if b < before.len() {
                    assert(nearer(before[a], before[b]));
                }
            }
        }
    }
    proof {
        assert(left.take(mid - lo) =~= left);
        assert(right.take(hi - mid) =~= right);
        lemma_multiset_commutative(left, right);
        assert(v@.subrange(lo as int, hi as int) =~= left + right);
    }
    let ghost merged = scratch@;
    let mut k: usize = 0;
    while k < hi - lo
        invariant
            lo <= hi <= v@.len(),
            k <= hi - lo,
            scratch@ == merged,
            scratch@.len() == hi - lo,
            v@.len() == old(v)@.len(),
            forall|p: int| 0 <= p < v@.len() && (p < lo || hi <= p) ==> v@[p] == old(v)@[p],
            forall|p: int| 0 <= p < k ==> v@[lo + p] == scratch@[p],
        decreases hi - lo - k,
    {
        v[lo + k] = scratch[k];
        k += 1;
    }
    proof {
        assert(v@.subrange(lo as int, hi as int) =~= merged);
        assert forall|a: int, b: int| lo <= a < b < hi implies nearer(
            #[trigger] v@[a],
            #[trigger] v@[b],
        ) by {
            assert(v@[lo + (a - lo)] == merged[a - lo]);
            assert(v@[lo + (b - lo)] == merged[b - lo]);
            assert(nearer(merged[a - lo], merged[b - lo]));
        }
    }
}

/// Ranks the pairings that `v` holds from position `lo` up to, not
/// including, position `hi`, and leaves the others where they are.
fn rank_range(v: &mut Vec<Candidate>, scratch: &mut Vec<Candidate>, lo: usize, hi: usize)
    requires
        lo <= hi <= old(v)@.len(),
    ensures
        same_but_order(final(v)@, old(v)@, lo as int, hi as int),
        ranked_between(final(v)@, lo as int, hi as int),
    decreases hi - lo,
{
    if hi - lo > 1 {
        let mid = lo + (hi - lo) / 2;
        rank_range(v, scratch, lo, mid);
        let ghost first = v@;
        rank_range(v, scratch, mid, hi);
        let ghost second = v@;
        proof {
            assert(second.subrange(lo as int, mid as int) =~= first.subrange(
                lo as int,
                mid as int,
            ));
            assert(first.subrange(mid as int, hi as int) =~= old(v)@.subrange(
                mid as int,
                hi as int,
            ));
            assert forall|a: int, b: int| lo <= a < b < mid implies nearer(
                #[trigger] second[a],
                #[trigger] second[b],
            ) by {
                assert(nearer(first[a], first[b]));
            }
        }
        merge_runs(v, scratch, lo, mid, hi);
        proof {
            lemma_multiset_commutative(
                old(v)@.subrange(lo as int, mid as int),
                old(v)@.subrange(mid as int, hi as int),
            );
            lemma_multiset_commutative(
                second.subrange(lo as int, mid as int),
                second.subrange(mid as int, hi as int),
            );
            assert(old(v)@.subrange(lo as int, hi as int) =~= old(v)@.subrange(
                lo as int,
                mid as int,
            ) + old(v)@.subrange(mid as int, hi as int));
            assert(second.subrange(lo as int, hi as int) =~= second.subrange(lo as int, mid as int)
                + second.subrange(mid as int, hi as int));
        }
    }
}

/// Puts the pairings of `v` in the order in which they are settled. The
/// work is done in `v` itself and in `scratch`, which is left empty; neither
/// is allocated anew if `scratch` has room for what `v` holds.
pub fn rank(v: &mut Vec<Candidate>, scratch: &mut Vec<Candidate>)
    ensures
        final(v)@ == ranked(old(v)@),
        final(scratch)@ == Seq::<Candidate>::empty(),
{
    let n = v.len();
    rank_range(v, scratch, 0, n);
    scratch.clear();
    proof {
        assert(v@.subrange(0, n as int) =~= v@);
        assert(old(v)@.subrange(0, n as int) =~= old(v)@);
        assert(sorted_by(v@, nearer_rel())) by {
            assert forall|a: int, b: int| 0 <= a < b < v@.len() implies #[trigger] nearer_rel()(
                v@[a],
                v@[b],
            ) by {
                assert(nearer(v@[a], v@[b]));
            }
        }
        lemma_ranked(old(v)@);
    }
}

} // verus!
