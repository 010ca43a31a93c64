//! The mathematical model of batched deletion.
//!
//! A deletion batch is a sequence of positions, possibly unsorted and with
//! duplicates. Its meaning is a set: a position is deleted iff it occurs in
//! the batch. The surviving elements keep their relative order, and each one
//! moves down by the number of deleted positions below its own.

use vstd::prelude::*;

verus! {

/// Whether position `p` occurs in the deletion batch `del`.
pub open spec fn is_deleted(del: Seq<usize>, p: int) -> bool {
    exists|k: int| 0 <= k < del.len() && del[k] == p
}

/// The number of distinct positions below `p` that the batch `del` deletes.
///
/// This is the amount by which a surviving element at position `p` moves down.
pub open spec fn count_deleted_before(del: Seq<usize>, p: int) -> int
    decreases p,
{
    if p <= 0 {
        0
    } else {
        count_deleted_before(del, p - 1) + if is_deleted(del, p - 1) {
            1int
        } else {
            0int
        }
    }
}

/// The elements of `items` whose positions survive the batch `del`,
/// in their original relative order.
pub open spec fn survivors(items: Seq<usize>, del: Seq<usize>) -> Seq<usize>
    decreases items.len(),
{
    if items.len() == 0 {
        Seq::empty()
    } else if is_deleted(del, items.len() - 1) {
        survivors(items.drop_last(), del)
    } else {
        survivors(items.drop_last(), del).push(items.last())
    }
}

pub proof fn lemma_count_bounds(del: Seq<usize>, p: int)
    ensures
        0 <= count_deleted_before(del, p),
        p >= 0 ==> count_deleted_before(del, p) <= p,
    decreases p,
{
    if p > 0 {
        lemma_count_bounds(del, p - 1);
    }
}

pub proof fn lemma_count_monotone(del: Seq<usize>, p: int, q: int)
    requires
        p <= q,
    ensures
        count_deleted_before(del, p) <= count_deleted_before(del, q),
        count_deleted_before(del, q) - count_deleted_before(del, p) <= q - p,
    decreases q - p,
{
    if p < q {
        lemma_count_monotone(del, p, q - 1);
    }
}

/// A surviving position below `q` lands strictly below where `q` itself lands.
pub proof fn lemma_new_index_strictly_monotone(del: Seq<usize>, p: int, q: int)
    requires
        p < q,
        !is_deleted(del, p),
    ensures
        p - count_deleted_before(del, p) < q - count_deleted_before(del, q),
{
    assert(count_deleted_before(del, p + 1) == count_deleted_before(del, p));
    lemma_count_monotone(del, p + 1, q);
}

/// The batch removes `count_deleted_before(del, n)` of the first `n` positions.
pub proof fn lemma_survivors_len(items: Seq<usize>, del: Seq<usize>)
    ensures
        survivors(items, del).len() == items.len() - count_deleted_before(del, items.len() as int),
    decreases items.len(),
{
    if items.len() > 0 {
        lemma_survivors_len(items.drop_last(), del);
        lemma_count_bounds(del, items.len() - 1);
    }
}

/// The element at surviving position `q` lands at `q - count_deleted_before(del, q)`.
pub proof fn lemma_survivors_mapping(items: Seq<usize>, del: Seq<usize>, q: int)
    requires
        0 <= q < items.len(),
        !is_deleted(del, q),
    ensures
        0 <= q - count_deleted_before(del, q) < survivors(items, del).len(),
        survivors(items, del)[q - count_deleted_before(del, q)] == items[q],
    decreases items.len(),
{
    let n = items.len() - 1;
    let prefix = items.drop_last();
    lemma_survivors_len(items, del);
    lemma_count_bounds(del, q);
    if q < n {
        lemma_survivors_mapping(prefix, del, q);
        lemma_new_index_strictly_monotone(del, q, n);
        lemma_count_monotone(del, q, n);
    } else {
        if !is_deleted(del, n) {
            lemma_survivors_len(prefix, del);
            assert(survivors(items, del) == survivors(prefix, del).push(items.last()));
        }
    }
}

/// Every element of `survivors` comes from some surviving position.
pub proof fn lemma_survivors_membership(items: Seq<usize>, del: Seq<usize>, j: int)
    requires
        0 <= j < survivors(items, del).len(),
    ensures
        exists|q: int|
            0 <= q < items.len() && !is_deleted(del, q) && j == q - #[trigger] count_deleted_before(
                del,
                q,
            ) && survivors(items, del)[j] == items[q],
    decreases items.len(),
{
    let n = items.len() - 1;
    let prefix = items.drop_last();
    let s = survivors(items, del);
    let s0 = survivors(prefix, del);
    if is_deleted(del, n) {
        lemma_survivors_membership(prefix, del, j);
        let q = choose|q: int|
            0 <= q < prefix.len() && !is_deleted(del, q) && j == q - #[trigger] count_deleted_before(
                del,
                q,
            ) && s0[j] == prefix[q];
        assert(0 <= q < items.len() && !is_deleted(del, q) && j == q - count_deleted_before(del, q)
            && s[j] == items[q]);
    } else {
        if j < s0.len() {
            lemma_survivors_membership(prefix, del, j);
            let q = choose|q: int|
                0 <= q < prefix.len() && !is_deleted(del, q) && j == q
                    - #[trigger] count_deleted_before(del, q) && s0[j] == prefix[q];
            assert(0 <= q < items.len() && !is_deleted(del, q) && j == q - count_deleted_before(
                del,
                q,
            ) && s[j] == items[q]);
        } else {
            lemma_survivors_len(items, del);
            lemma_survivors_len(prefix, del);
            assert(j == n - count_deleted_before(del, n));
            assert(s[j] == items[n]);
        }
    }
}

proof fn lemma_count_same_membership(del1: Seq<usize>, del2: Seq<usize>, p: int)
    requires
        forall|q: int| is_deleted(del1, q) <==> is_deleted(del2, q),
    ensures
        count_deleted_before(del1, p) == count_deleted_before(del2, p),
    decreases p,
{
    if p > 0 {
        lemma_count_same_membership(del1, del2, p - 1);
    }
}

/// Law: a deletion batch acts as a set of positions. Two batches that contain
/// the same positions — regardless of order or multiplicity — keep the same
/// survivors and renumber them identically. In particular, a batch that names
/// one index twice behaves exactly as one that names it once.
pub proof fn lemma_batch_set_semantics(items: Seq<usize>, del1: Seq<usize>, del2: Seq<usize>)
    requires
        forall|p: int| is_deleted(del1, p) <==> is_deleted(del2, p),
    ensures
        survivors(items, del1) == survivors(items, del2),
        forall|p: int| count_deleted_before(del1, p) == count_deleted_before(del2, p),
    decreases items.len(),
{
    assert forall|p: int| count_deleted_before(del1, p) == count_deleted_before(del2, p) by {
        lemma_count_same_membership(del1, del2, p);
    }
    if items.len() > 0 {
        lemma_batch_set_semantics(items.drop_last(), del1, del2);
    }
}

} // verus!
