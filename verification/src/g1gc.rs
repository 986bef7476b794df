//! G1-specific configuration: the pause-time target and the heap-region
//! size, with the JDK8 defaults used when the flags are absent.
use vstd::prelude::*;
use crate::flags::{flag_number, flag_value, valid_u64};
use crate::numfmt::dec_value;

verus! {

/// The G1 pause target in milliseconds: the `-XX:MaxGCPauseMillis=` flag,
/// or the documented default of 200 ms. `None` when the flag's value is
/// unreadable.
pub open spec fn spec_g1_target_millis(flags: Seq<Seq<char>>) -> Option<int> {
    match flag_value(flags, "-XX:MaxGCPauseMillis="@) {
        Some(s) => if valid_u64(s) {
            Some(dec_value(s))
        } else {
            None
        },
        None => Some(200),
    }
}

/// The G1 pause target in milliseconds.
pub fn get_g1_target_millis(gc_flags: &Vec<String>) -> (r: Option<u64>)
    ensures
        r is Some <==> spec_g1_target_millis(gc_flags.deep_view()) is Some,
        r is Some ==> r->0 as int == spec_g1_target_millis(gc_flags.deep_view())->0,
{
    match flag_number(gc_flags, "-XX:MaxGCPauseMillis=") {
        Some(v) => v,
        None => Some(200),
    }
}

/// The default G1 region size, in bytes, for a heap of `heap` bytes: the
/// JDK8 lookup table, with heaps exactly on a boundary rounding down to the
/// smaller region.
pub open spec fn spec_region_for_heap(heap: int) -> int {
    if heap <= 4294967296 {
        1048576
    } else if heap <= 8589934592 {
        2097152
    } else if heap <= 17179869184 {
        4194304
    } else if heap <= 34359738368 {
        8388608
    } else if heap <= 68719476736 {
        16777216
    } else {
        33554432
    }
}

/// The default G1 region size in bytes for a heap of `heap_bytes` bytes.
/// A heap exactly at the 4, 8, 16, 32 or 64 GiB boundary takes the smaller
/// region (1, 2, 4, 8 or 16 MiB); anything larger than 64 GiB takes the
/// 32 MiB cap.
pub fn get_region_for_heap(heap_bytes: u64) -> (r: u64)
    ensures
        r as int == spec_region_for_heap(heap_bytes as int),
{
    if heap_bytes <= 4294967296 {
        1048576
    } else if heap_bytes <= 8589934592 {
        2097152
    } else if heap_bytes <= 17179869184 {
        4194304
    } else if heap_bytes <= 34359738368 {
        8388608
    } else if heap_bytes <= 68719476736 {
        16777216
    } else {
        33554432
    }
}

/// The G1 region size in bytes: the `-XX:G1HeapRegionSize=` flag, or the
/// default derived from the heap size. `None` when the flag's value is
/// unreadable.
pub open spec fn spec_g1_region_bytes(flags: Seq<Seq<char>>, max_heap: int) -> Option<int> {
    match flag_value(flags, "-XX:G1HeapRegionSize="@) {
        Some(s) => if valid_u64(s) {
            Some(dec_value(s))
        } else {
            None
        },
        None => Some(spec_region_for_heap(max_heap)),
    }
}

/// The G1 region size in bytes.
pub fn get_g1_gc_region_size_bytes(max_heap_bytes: u64, gc_flags: &Vec<String>) -> (r: Option<
    u64,
>)
    ensures
        r is Some <==> spec_g1_region_bytes(gc_flags.deep_view(), max_heap_bytes as int) is Some,
        r is Some ==> r->0 as int == spec_g1_region_bytes(
            gc_flags.deep_view(),
            max_heap_bytes as int,
        )->0,
{
    match flag_number(gc_flags, "-XX:G1HeapRegionSize=") {
        Some(v) => v,
        None => Some(get_region_for_heap(max_heap_bytes)),
    }
}

} // verus!
