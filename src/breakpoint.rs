//! Choosing the breakpoint that applies to a width.

use vstd::prelude::*;

verus! {

/// The keys are in non-decreasing order.
pub open spec fn is_sorted(keys: Seq<i64>) -> bool {
    forall|i: int, j: int| 0 <= i <= j < keys.len() ==> keys[i] <= keys[j]
}

/// The largest key not above `value`, by binary search over `keys`; `None`
/// where every key is above it. Whatever the order of `keys`, a result is one
/// of them and not above `value`; for sorted keys it is the last key not above
/// `value`.
pub fn select_breakpoint(keys: Vec<i64>, value: i64) -> (r: Option<i64>)
    ensures
        match r {
            Some(k) => exists|i: int| 0 <= i < keys@.len() && #[trigger] keys@[i] == k && k <= value
                && (is_sorted(keys@) ==> forall|j: int| i < j < keys@.len() ==> keys@[j] > value),
            None => is_sorted(keys@) ==> forall|j: int| 0 <= j < keys@.len() ==> keys@[j] > value,
        },
{
    if keys.len() == 0 {
        return None;
    }
    let mut left: usize = 0;
    let mut right: usize = keys.len();
    while left < right
        invariant
            left <= right <= keys@.len(),
            left == 0 || keys@[left - 1] <= value,
            right == keys@.len() || keys@[right as int] > value,
            is_sorted(keys@) ==> forall|j: int| 0 <= j < left ==> keys@[j] <= value,
            is_sorted(keys@) ==> forall|j: int| right <= j < keys@.len() ==> keys@[j] > value,
        decreases right - left,
    {
        let mid = left + (right - left) / 2;
        if keys[mid] <= value {
            left = mid + 1;
        } else {
            right = mid;
        }
    }
    if left == 0 {
        None
    } else {
        let k = keys[left - 1];
        assert(keys@[left - 1] == k);
        Some(k)
    }
}

} // verus!
