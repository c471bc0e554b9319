//! Time-axis alignment: locate each event of a sparse, independently
//! timestamped series on the axis of a dense one-sample-per-second series.

use vstd::prelude::*;

verus! {

/// The dense-series index of an event timestamp: its offset in seconds
/// from the dense series' start. Events before the start or at an offset
/// beyond the dense series' length are out of range and yield `None`;
/// they are reported rather than indexed unchecked.
pub open spec fn align_offset(start: u64, dense_len: int, ts: u64) -> Option<usize> {
    if start <= ts && ts - start < dense_len {
        Some(((ts - start) as usize))
    } else {
        None
    }
}

/// Compute the dense-series index of each event timestamp, in order:
/// `Some(offset)` for events that fall on the dense axis, `None` for
/// out-of-range events.
pub fn align_events(start: u64, dense_len: usize, events: &Vec<u64>) -> (r: Vec<Option<usize>>)
    ensures
        r@.len() == events@.len(),
        forall|i: int|
            0 <= i < events@.len() ==> r@[i] == align_offset(
                start,
                dense_len as int,
                #[trigger] events@[i],
            ),
{
    let mut r: Vec<Option<usize>> = Vec::new();
    let mut i: usize = 0;
    while i < events.len()
        invariant
            i <= events@.len(),
            r@.len() == i,
            forall|j: int|
                0 <= j < i ==> r@[j] == align_offset(
                    start,
                    dense_len as int,
                    #[trigger] events@[j],
                ),
        decreases events@.len() - i,
    {
        let ts = events[i];
        if start <= ts && ts - start < dense_len as u64 {
            r.push(Some((ts - start) as usize));
        } else {
            r.push(None);
        }
        i = i + 1;
    }
    r
}

} // verus!