use vstd::prelude::*;

verus! {

pub open spec fn is_power_of_two(n: nat) -> bool
    decreases n,
{
    if n <= 1 {
        n == 1
    } else {
        n % 2 == 0 && is_power_of_two(n / 2)
    }
}

/// The transform size for windows of at least `min_size` samples: the
/// smallest power of two that is not below it. `None` only where that size
/// may not fit in `usize`.
pub fn ideal_window_size(min_size: usize) -> (r: Option<usize>)
    ensures
        r matches Some(n) ==> is_power_of_two(n as nat) && n >= min_size && (n == 1 || n / 2
            < min_size),
        min_size <= usize::MAX / 2 ==> r is Some,
{
    let mut n: usize = 1;
    while n < min_size
        invariant
            is_power_of_two(n as nat),
            n == 1 || n / 2 < min_size,
        decreases usize::MAX - n,
    {
        if n > usize::MAX / 2 {
            return None;
        }
        assert(is_power_of_two((n * 2) as nat)) by {
            assert((n * 2) as nat / 2 == n);
        }
        n = n * 2;
    }
    Some(n)
}

} // verus!
