use vstd::prelude::*;

verus! {

/// The sum of the items of `s`.
pub open spec fn seq_sum(s: Seq<i32>) -> int
    decreases s.len(),
{
    if s.len() == 0 {
        0
    } else {
        seq_sum(s.drop_last()) + s.last()
    }
}

/// Every running total of `s`, taken left to right, fits in an `i32`.
pub open spec fn sums_fit(s: Seq<i32>) -> bool {
    forall|k: int|
        0 <= k <= s.len() ==> i32::MIN <= #[trigger] seq_sum(s.subrange(0, k)) <= i32::MAX
}

/// Adds up the items of `arr` from left to right.
pub fn sum(arr: &[i32]) -> (r: i32)
    requires
        sums_fit(arr@),
    ensures
        r == seq_sum(arr@),
{
    let mut total: i32 = 0;
    let mut i: usize = 0;
    assert(arr@.subrange(0, 0) =~= Seq::<i32>::empty());
    while i < arr.len()
        invariant
            i <= arr.len(),
            sums_fit(arr@),
            total == seq_sum(arr@.subrange(0, i as int)),
        decreases arr.len() - i,
    {
        assert(arr@.subrange(0, i + 1).drop_last() =~= arr@.subrange(0, i as int));
        assert(seq_sum(arr@.subrange(0, i + 1)) <= i32::MAX);
        total = total + arr[i];
        i += 1;
    }
    assert(arr@.subrange(0, arr.len() as int) =~= arr@);
    total
}

} // verus!
