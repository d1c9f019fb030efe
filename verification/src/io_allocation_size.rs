//! The allocation-size planner: a pure map from a requested size to a
//! bucketed allocation size, following a fixed ascending growth table.

use vstd::prelude::*;

verus! {

/// The fixed ascending table of bucket sizes (a 1.5x growth law).
pub open spec fn alloc_table() -> Seq<usize> {
    seq![
        512usize, 768, 1152, 1728, 2592, 3888, 5832, 8748, 13122, 19683, 29525, 44288, 66432,
        99648, 131072,
    ]
}

pub struct IoAllocationSize {}

impl IoAllocationSize {
    /// The planned allocation size: the smallest table entry at least `size`,
    /// or the largest entry when `size` exceeds every entry (the planner
    /// deliberately under-allocates for oversized requests).
    pub open spec fn next_size_spec(size: usize) -> usize {
        if size <= 512 {
            512
        } else if size <= 768 {
            768
        } else if size <= 1152 {
            1152
        } else if size <= 1728 {
            1728
        } else if size <= 2592 {
            2592
        } else if size <= 3888 {
            3888
        } else if size <= 5832 {
            5832
        } else if size <= 8748 {
            8748
        } else if size <= 13122 {
            13122
        } else if size <= 19683 {
            19683
        } else if size <= 29525 {
            29525
        } else if size <= 44288 {
            44288
        } else if size <= 66432 {
            66432
        } else if size <= 99648 {
            99648
        } else {
            131072
        }
    }

    /// Finds the next allocation size, potentially smaller than `size`.
    pub fn next_allocation_size(size: usize) -> (r: usize)
        ensures
            r == Self::next_size_spec(size),
    {
        if size <= 512 {
            512
        } else if size <= 768 {
            768
        } else if size <= 1152 {
            1152
        } else if size <= 1728 {
            1728
        } else if size <= 2592 {
            2592
        } else if size <= 3888 {
            3888
        } else if size <= 5832 {
            5832
        } else if size <= 8748 {
            8748
        } else if size <= 13122 {
            13122
        } else if size <= 19683 {
            19683
        } else if size <= 29525 {
            29525
        } else if size <= 44288 {
            44288
        } else if size <= 66432 {
            66432
        } else if size <= 99648 {
            99648
        } else {
            131072
        }
    }
}

/// The fragment capacities that growing by `rem` outstanding bytes yields:
/// each new fragment is bucket-sized to the remainder still owed at that
/// point, which then shrinks by what that fragment can take.
pub open spec fn planned_caps(rem: int) -> Seq<int>
    decreases rem,
{
    if rem <= 0 {
        Seq::empty()
    } else {
        let c = IoAllocationSize::next_size_spec(rem as usize) as int;
        let take = if c < rem {
            c
        } else {
            rem
        };
        seq![c] + planned_caps(rem - take)
    }
}

/// The planner's law: for a request no larger than the last table entry, the
/// planned size is the minimal table entry at least as large as the request;
/// for a larger request, it is the largest table entry, smaller than the
/// request.
pub proof fn lemma_next_size_minimal(size: usize)
    ensures
        alloc_table().contains(IoAllocationSize::next_size_spec(size)),
        size <= 131072 ==> IoAllocationSize::next_size_spec(size) >= size,
        size <= 131072 ==> forall|i: int|
            0 <= i < alloc_table().len() && alloc_table()[i] >= size
                ==> IoAllocationSize::next_size_spec(size) <= alloc_table()[i],
        size > 131072 ==> IoAllocationSize::next_size_spec(size) == alloc_table().last(),
{
    let t = alloc_table();
    let r = IoAllocationSize::next_size_spec(size);
    assert(t.len() == 15);
    assert(exists|i: int| 0 <= i < t.len() && t[i] == r) by {
        if size <= 512 {
            assert(t[0] == r);
        } else if size <= 768 {
            assert(t[1] == r);
        } else if size <= 1152 {
            assert(t[2] == r);
        } else if size <= 1728 {
            assert(t[3] == r);
        } else if size <= 2592 {
            assert(t[4] == r);
        } else if size <= 3888 {
            assert(t[5] == r);
        } else if size <= 5832 {
            assert(t[6] == r);
        } else if size <= 8748 {
            assert(t[7] == r);
        } else if size <= 13122 {
            assert(t[8] == r);
        } else if size <= 19683 {
            assert(t[9] == r);
        } else if size <= 29525 {
            assert(t[10] == r);
        } else if size <= 44288 {
            assert(t[11] == r);
        } else if size <= 66432 {
            assert(t[12] == r);
        } else if size <= 99648 {
            assert(t[13] == r);
        } else {
            assert(t[14] == r);
        }
    }
    if size <= 131072 {
        assert forall|i: int| 0 <= i < t.len() && t[i] >= size implies r <= t[i] by {
            assert(t[0] == 512);
            assert(t[1] == 768);
            assert(t[2] == 1152);
            assert(t[3] == 1728);
            assert(t[4] == 2592);
            assert(t[5] == 3888);
            assert(t[6] == 5832);
            assert(t[7] == 8748);
            assert(t[8] == 13122);
            assert(t[9] == 19683);
            assert(t[10] == 29525);
            assert(t[11] == 44288);
            assert(t[12] == 66432);
            assert(t[13] == 99648);
            assert(t[14] == 131072);
        }
    }
}

} // verus!
