//! Merging the per-process records into one ordered sequence: an ascending
//! sort by swap usage under a size-dependent sequential or parallel
//! strategy, and the running total of all usages.

use vstd::prelude::*;
use rayon::slice::ParallelSliceMut;

verus! {

use crate::record::ProcessSwapRecord;

/// Ascending order by swap usage.  Ties between equal usages carry no
/// defined secondary order.
pub open spec fn sorted_by_swap(s: Seq<ProcessSwapRecord>) -> bool {
    forall|i: int, j: int|
        0 <= i < j < s.len() ==> #[trigger] s[i].swap_bytes <= #[trigger] s[j].swap_bytes
}

/// The record count at and above which the parallel sort strategy is used.
pub const PARALLEL_SORT_THRESHOLD: usize = 64;

/// The strategy policy: parallel at and above the threshold, sequential
/// below it.
pub fn use_parallel_sort(count: usize) -> (r: bool)
    ensures
        r == (count >= PARALLEL_SORT_THRESHOLD),
{
    count >= PARALLEL_SORT_THRESHOLD
}

/// Sort the records ascending by swap usage with a sequential insertion
/// sort, reordering them and changing nothing else.
pub fn sort_records_sequential(records: &mut Vec<ProcessSwapRecord>)
    ensures
        sorted_by_swap(final(records)@),
        final(records)@.to_multiset() == old(records)@.to_multiset(),
{
    broadcast use vstd::seq_lib::group_to_multiset_ensures;
    broadcast use vstd::multiset::group_multiset_axioms;

    if records.len() <= 1 {
        return ;
    }
    let mut i: usize = 1;
    while i < records.len()
        invariant
            1 <= i <= records@.len(),
            records@.len() == old(records)@.len(),
            records@.to_multiset() == old(records)@.to_multiset(),
            sorted_by_swap(records@.take(i as int)),
        decreases records@.len() - i,
    {
        let ghost prev = records@;
        let x = records.remove(i);
        proof {
            assert(records@.take(i as int) =~= prev.take(i as int));
            assert(prev.contains(prev[i as int]));
        }
        let mut j: usize = i;
        while j > 0 && records[j - 1].swap_bytes > x.swap_bytes
            invariant
                j <= i,
                i < prev.len(),
                records@ == prev.remove(i as int),
                forall|k: int| j <= k < i ==> #[trigger] records@[k].swap_bytes > x.swap_bytes,
            decreases j,
        {
            j -= 1;
        }
        let ghost mid = records@;
        let ghost xv = x;
        records.insert(j, x);
        proof {
            assert(records@.to_multiset() =~= prev.to_multiset()) by {
                vstd::seq_lib::to_multiset_remove(prev, i as int);
                vstd::seq_lib::to_multiset_insert(mid, j as int, xv);
                assert(xv == prev[i as int]);
                assert(prev.contains(xv));
                vstd::seq_lib::to_multiset_contains(prev, xv);
                assert(mid.to_multiset() == prev.to_multiset().remove(xv));
                assert(records@.to_multiset() == mid.to_multiset().insert(xv));
                assert(prev.to_multiset().count(xv) >= 1);
            }
            let now = records@;
            assert forall|a: int, b: int| 0 <= a < b < i + 1 implies #[trigger] now[a].swap_bytes
                <= #[trigger] now[b].swap_bytes by {
                assert(forall|k: int| 0 <= k < j ==> now[k] == prev[k]);
                assert(now[j as int] == x);
                assert(forall|k: int| j < k <= i ==> now[k] == prev[k - 1]);
                assert(forall|k: int| 0 <= k < i ==> prev.take(i as int)[k] == prev[k]);
            }
            assert(sorted_by_swap(now.take(i + 1)));
        }
        i += 1;
    }
    proof {
        assert(records@.take(records@.len() as int) =~= records@);
        if records@.len() == 0 {
            assert(sorted_by_swap(records@));
        }
    }
}

/// Relies on rayon's `par_sort_unstable_by_key` on the key `swap_bytes`: it
/// reorders the elements of the slice into ascending key order and neither
/// adds, removes nor alters an element; equal keys end up in no particular
/// order.
#[verifier::external_body]
pub fn sort_records_parallel(records: &mut Vec<ProcessSwapRecord>)
    ensures
        sorted_by_swap(final(records)@),
        final(records)@.to_multiset() == old(records)@.to_multiset(),
{
    records.par_sort_unstable_by_key(|r: &ProcessSwapRecord| r.swap_bytes);
}

/// Sort the records ascending by swap usage, choosing the strategy by the
/// record count.  Both strategies produce the same ascending usage order.
pub fn sort_records(records: &mut Vec<ProcessSwapRecord>)
    ensures
        sorted_by_swap(final(records)@),
        final(records)@.to_multiset() == old(records)@.to_multiset(),
{
    let parallel = use_parallel_sort(records.len());
    if parallel {
        sort_records_parallel(records);
    } else {
        sort_records_sequential(records);
    }
}

/// The sum of the swap usages of a sequence of records.
pub open spec fn spec_total_swap(s: Seq<ProcessSwapRecord>) -> int
    decreases s.len(),
{
    if s.len() == 0 {
        0
    } else {
        s[0].swap_bytes + spec_total_swap(s.skip(1))
    }
}

/// The running total of all swap usages, in a width that cannot overflow
/// for any record count.
pub fn total_swap(records: &Vec<ProcessSwapRecord>) -> (t: i128)
    ensures
        t as int == spec_total_swap(records@),
{
    let len = records.len();
    let mut sum: i128 = 0;
    let mut i: usize = 0;
    proof {
        assert(records@.skip(0) =~= records@);
    }
    while i < len
        invariant
            i <= len,
            len == records@.len(),
            spec_total_swap(records@) == sum + spec_total_swap(records@.skip(i as int)),
            -(i as int) * 0x8000_0000_0000_0000 <= sum as int
                <= (i as int) * 0x8000_0000_0000_0000,
        decreases len - i,
    {
        proof {
            assert(records@.skip(i as int)[0] == records@[i as int]);
            assert(records@.skip(i as int).skip(1) =~= records@.skip(i as int + 1));
            assert(usize::MAX as int <= 0xffff_ffff_ffff_ffff);
        }
        sum = sum + records[i].swap_bytes as i128;
        i += 1;
    }
    proof {
        assert(records@.skip(len as int) =~= Seq::<ProcessSwapRecord>::empty());
    }
    sum
}

/// Law: the sort strategies agree.  Any two orderings of the same multiset
/// of records that are both sorted ascending by swap usage are equal up to
/// the order of ties: they have the same length and the same usage at every
/// position.  In particular the sequential and the parallel path applied to
/// the same input yield the same sequence of usages.
pub proof fn lemma_sorted_orders_agree(s1: Seq<ProcessSwapRecord>, s2: Seq<ProcessSwapRecord>)
    requires
        sorted_by_swap(s1),
        sorted_by_swap(s2),
        s1.to_multiset() == s2.to_multiset(),
    ensures
        s1.len() == s2.len(),
        forall|i: int| 0 <= i < s1.len() ==> #[trigger] s1[i].swap_bytes == s2[i].swap_bytes,
    decreases s1.len(),
{
    broadcast use vstd::seq_lib::group_to_multiset_ensures;

    assert(s1.len() == s1.to_multiset().len());
    assert(s2.len() == s2.to_multiset().len());
    if s1.len() > 0 {
        // The heads carry the same usage: each head occurs in the other
        // sequence, whose own head is its minimum.
        assert(s1.contains(s1[0]));
        assert(s2.to_multiset().count(s1[0]) > 0);
        assert(s2.contains(s1[0]));
        let j = choose|j: int| 0 <= j < s2.len() && s2[j] == s1[0];
        assert(s2[0].swap_bytes <= s1[0].swap_bytes);
        assert(s1.contains(s2[0])) by {
            assert(s1.to_multiset().count(s2[0]) > 0);
        }
        let j1 = choose|k: int| 0 <= k < s1.len() && s1[k] == s2[0];
        assert(s1[0].swap_bytes <= s2[0].swap_bytes);
        assert(s1[0].swap_bytes == s2[0].swap_bytes);
        // Every element of s2 up to position j carries the head's usage.
        assert(forall|k: int| 0 <= k <= j ==> #[trigger] s2[k].swap_bytes == s1[0].swap_bytes);
        // Recurse on the tails, with the head removed from each side.
        let t1 = s1.remove(0);
        let t2 = s2.remove(j);
        assert(t1.to_multiset() == s1.to_multiset().remove(s1[0]));
        assert(t2.to_multiset() == s2.to_multiset().remove(s2[j]));
        assert(t1.to_multiset() == t2.to_multiset());
        assert(sorted_by_swap(t1)) by {
            assert(forall|k: int| 0 <= k < t1.len() ==> #[trigger] t1[k] == s1[k + 1]);
        }
        assert(sorted_by_swap(t2)) by {
            assert(forall|k: int| 0 <= k < j ==> #[trigger] t2[k] == s2[k]);
            assert(forall|k: int| j <= k < t2.len() ==> #[trigger] t2[k] == s2[k + 1]);
        }
        lemma_sorted_orders_agree(t1, t2);
        assert forall|i: int| 0 <= i < s1.len() implies #[trigger] s1[i].swap_bytes
            == s2[i].swap_bytes by {
            if i > 0 {
                assert(s1[i] == t1[i - 1]);
                assert(t1[i - 1].swap_bytes == t2[i - 1].swap_bytes);
                if i - 1 >= j {
                    assert(t2[i - 1] == s2[i]);
                } else {
                    assert(t2[i - 1] == s2[i - 1]);
                    assert(s2[i - 1].swap_bytes == s1[0].swap_bytes);
                    assert(s2[i].swap_bytes == s1[0].swap_bytes);
                }
            }
        }
    }
}

} // verus!
