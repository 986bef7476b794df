//! Profile metrics: identifier and value pairs, and copying a slice of them.
use vstd::prelude::*;

verus! {

/// One recorded metric: its identifier and its integer value.
pub struct Metric {
    pub metric_id: i32,
    pub long_value: i64,
}

/// Copies a slice of metrics into a fresh vector, field by field.
pub fn clone_metrics(metrics: &[Metric]) -> (r: Vec<Metric>)
    ensures
        r@ =~= metrics@,
{
    let mut r: Vec<Metric> = Vec::new();
    let mut i: usize = 0;
    while i < metrics.len()
        invariant
            i <= metrics@.len(),
            r@.len() == i,
            forall|j: int|
                0 <= j < i ==> r@[j].metric_id == metrics@[j].metric_id && r@[j].long_value
                    == metrics@[j].long_value,
        decreases metrics@.len() - i,
    {
        let m = &metrics[i];
        r.push(Metric { metric_id: m.metric_id, long_value: m.long_value });
        i += 1;
    }
    r
}

} // verus!
