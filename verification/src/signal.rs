//! Finding the first window of pairwise-distinct characters in a signal:
//! the position just past the first such window marks the start of a
//! packet or message.

use vstd::prelude::*;

verus! {

/// The `n` characters of `s` starting at `start` are pairwise distinct.
pub open spec fn window_distinct(s: Seq<char>, start: int, n: int) -> bool {
    forall|a: int, b: int| #![trigger s[a], s[b]] start <= a < b < start + n ==> s[a] != s[b]
}

/// The characters of the slice `[start, start + n)` are pairwise distinct.
fn distinct_in_range(signal: &Vec<char>, start: usize, n: usize) -> (r: bool)
    requires
        start + n <= signal@.len(),
    ensures
        r == window_distinct(signal@, start as int, n as int),
{
    let len = signal.len();
    let end = start + n;
    let mut a: usize = start;
    while a < end
        invariant
            start <= a <= end,
            end == start + n,
            end <= signal@.len(),
            forall|x: int, y: int|
                #![trigger signal@[x], signal@[y]]
                start <= x < y < end && x < a ==> signal@[x] != signal@[y],
        decreases end - a,
    {
        let mut b: usize = a + 1;
        while b < end
            invariant
                start <= a < b <= end,
                end == start + n,
                end <= signal@.len(),
                forall|y: int| a < y < b ==> signal@[a as int] != #[trigger] signal@[y],
            decreases end - b,
        {
            if signal[a] == signal[b] {
                return false;
            }
            b += 1;
        }
        a += 1;
    }
    true
}

/// All the characters are pairwise distinct.
pub fn has_unique_elements(items: &Vec<char>) -> (r: bool)
    ensures
        r == window_distinct(items@, 0, items@.len() as int),
{
    distinct_in_range(items, 0, items.len())
}

/// Position just past the first window of `n` pairwise-distinct
/// characters, scanning windows starting at `0 .. signal.len() - n`;
/// `None` when no such window exists among those.
pub fn distinct_n_char_location(signal: &Vec<char>, n: usize) -> (r: Option<usize>)
    requires
        n <= signal@.len(),
    ensures
        r matches Some(m) ==> {
            &&& n <= m
            &&& m - n < signal@.len() - n
            &&& window_distinct(signal@, m - n, n as int)
            &&& forall|k: int| 0 <= k < m - n ==> !window_distinct(signal@, k, n as int)
        },
        r is None ==> forall|k: int|
            0 <= k < signal@.len() - n ==> !window_distinct(signal@, k, n as int),
{
    let mut idx: usize = 0;
    while idx < signal.len() - n
        invariant
            n <= signal@.len(),
            0 <= idx <= signal@.len() - n,
            forall|k: int| 0 <= k < idx ==> !window_distinct(signal@, k, n as int),
        decreases signal@.len() - n - idx,
    {
        if distinct_in_range(signal, idx, n) {
            return Some(idx + n);
        }
        idx += 1;
    }
    None
}

} // verus!
