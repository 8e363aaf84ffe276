//! Which of the two interleaved moons a sample belongs to.

use vstd::prelude::*;

verus! {

/// The moon of sample `i`, which is also its label: samples alternate,
/// starting with moon 0.
pub open spec fn moon_of(i: int) -> int {
    i % 2
}

/// The label of sample `i`.
pub fn moon_label(i: usize) -> (label: i32)
    ensures
        label == moon_of(i as int),
{
    if i % 2 == 0 {
        0
    } else {
        1
    }
}

/// The labels of `n_samples` samples, in order.
pub fn moon_labels(n_samples: usize) -> (labels: Vec<i32>)
    ensures
        labels@.len() == n_samples,
        forall|i: int| 0 <= i < n_samples ==> labels@[i] == moon_of(i),
{
    let mut labels: Vec<i32> = Vec::new();
    let mut i: usize = 0;
    while i < n_samples
        invariant
            i <= n_samples,
            labels@.len() == i,
            forall|j: int| 0 <= j < i ==> labels@[j] == moon_of(j),
        decreases n_samples - i,
    {
        labels.push(moon_label(i));
        i += 1;
    }
    labels
}

} // verus!
