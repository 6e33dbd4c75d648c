//! Presenting pairs without order or position bias.
use vstd::prelude::*;
use rand::seq::SliceRandom;
use crate::judgment::Pair;

verus! {

/// Relies on `rand::random`: a value drawn from the thread-local generator.
/// Nothing is promised of the value.
pub assume_specification<T>[ rand::random::<T> ]() -> (r: T)
    where
        rand::distributions::Standard: rand::distributions::Distribution<T>,
;

/// Relies on rand's `SliceRandom::shuffle` with the thread-local generator:
/// it only swaps elements, so what comes back is a permutation.
#[verifier::external_body]
fn shuffle_indices(v: &mut Vec<usize>)
    ensures
        final(v)@.to_multiset() == old(v)@.to_multiset(),
{
    v.shuffle(&mut rand::thread_rng());
}

/// The pair `p`, with its labels exchanged when `swap` holds.
pub open spec fn labelled(p: Pair, swap: bool) -> Pair {
    if swap {
        p.spec_swapped()
    } else {
        p
    }
}

/// The positions `0..n` in increasing order.
pub open spec fn positions(n: int) -> Seq<usize> {
    Seq::new(n as nat, |i: int| i as usize)
}

/// Whether `order` lists each position `0..n` exactly once.
pub open spec fn is_order(order: Seq<usize>, n: int) -> bool {
    order.to_multiset() == positions(n).to_multiset()
}

/// What is shown for the draws `swap` and `order`: at place `k` the pair at
/// position `order[k]`, labelled by its own draw `swap[order[k]]`.
pub open spec fn presented(pairs: Seq<Pair>, swap: Seq<bool>, order: Seq<usize>) -> Seq<Pair> {
    Seq::new(order.len(), |k: int| labelled(pairs[order[k] as int], swap[order[k] as int]))
}

/// The pairs as shown for given draws: the pair at position `i` has its
/// labels exchanged where `swap[i]` holds, and place `k` shows the pair at
/// position `order[k]`.
pub fn present_with(pairs: &Vec<Pair>, swap: &Vec<bool>, order: &Vec<usize>) -> (r: Vec<Pair>)
    requires
        swap@.len() == pairs@.len(),
        forall|k: int| 0 <= k < order@.len() ==> #[trigger] order@[k] < pairs@.len(),
    ensures
        r@ == presented(pairs@, swap@, order@),
{
    let mut out: Vec<Pair> = Vec::new();
    let mut k: usize = 0;
    while k < order.len()
        invariant
            swap@.len() == pairs@.len(),
            forall|u: int| 0 <= u < order@.len() ==> #[trigger] order@[u] < pairs@.len(),
            k <= order@.len(),
            out@.len() == k,
            forall|u: int|
                0 <= u < k ==> #[trigger] out@[u] == labelled(
                    pairs@[order@[u] as int],
                    swap@[order@[u] as int],
                ),
        decreases order@.len() - k,
    {
        let i = order[k];
        if swap[i] {
            out.push(pairs[i].swapped());
        } else {
            out.push(pairs[i]);
        }
        k += 1;
    }
    assert(out@ =~= presented(pairs@, swap@, order@));
    out
}

/// The pairs to show a participant: each pair's labels are exchanged on a
/// fair coin, independently of the others, and the pairs are then put in a
/// random order.
pub fn present(pairs: &Vec<Pair>) -> (r: Vec<Pair>)
    ensures
        exists|swap: Seq<bool>, order: Seq<usize>|
            swap.len() == pairs@.len() && is_order(order, pairs@.len() as int) && r@ == presented(
                pairs@,
                swap,
                order,
            ),
{
    let n = pairs.len();
    let mut swap: Vec<bool> = Vec::new();
    let mut order: Vec<usize> = Vec::new();
    let mut k: usize = 0;
    while k < n
        invariant
            n == pairs@.len(),
            k <= n,
            swap@.len() == k,
            order@ == positions(k as int),
        decreases n - k,
    {
        swap.push(rand::random::<bool>());
        order.push(k);
        assert(order@ =~= positions(k + 1));
        k += 1;
    }
    let ghost before = order@;
    shuffle_indices(&mut order);
    proof {
        assert forall|u: int| 0 <= u < order@.len() implies #[trigger] order@[u] < n by {
            let x = order@[u];
            vstd::seq_lib::to_multiset_contains(order@, x);
            vstd::seq_lib::to_multiset_contains(before, x);
            assert(order@.contains(x));
        }
    }
    let r = present_with(pairs, &swap, &order);
    assert(is_order(order@, n as int));
    r
}

} // verus!
