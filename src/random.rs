//! Random draws for spawn jitter and knockback.
use vstd::prelude::*;

verus! {

/// Relies on rand::random: a value drawn from the thread-local generator. A
/// random value carries no promise.
pub assume_specification<T>[ rand::random::<T> ]() -> (r: T)
    where
        rand::distributions::Standard: rand::distributions::Distribution<T>,
;

/// Draws `n` random 32-bit values.
pub fn draw_rolls(n: usize) -> (r: Vec<u32>)
    ensures
        r@.len() == n,
{
    let mut out: Vec<u32> = Vec::new();
    let mut i: usize = 0;
    while i < n
        invariant
            i <= n,
            out@.len() == i,
        decreases n - i,
    {
        out.push(rand::random::<u32>());
        i = i + 1;
    }
    out
}

} // verus!
