use gclog::flags::{Collector, GCFlags};
use gclog::pauses::{GCPause, HeapSizing};
use gclog::recommendations::generate_recommendations;

const GIB: u64 = 1024 * 1024 * 1024;
const MIB: u64 = 1024 * 1024;

fn g1_flags(region_size_bytes: u64) -> GCFlags {
    GCFlags {
        collector: Collector::G1GC,
        max_heap_bytes: 32 * GIB,
        min_heap_bytes: 32 * GIB,
        region_size_bytes,
        target_pause_millis: 500,
        max_direct_memory_bytes: 40 * GIB,
        all_flags: vec![],
    }
}

fn other_flags(collector: Collector) -> GCFlags {
    GCFlags {
        collector,
        max_heap_bytes: 32 * GIB,
        min_heap_bytes: 32 * GIB,
        region_size_bytes: 32 * MIB,
        target_pause_millis: 500,
        max_direct_memory_bytes: 40 * GIB,
        all_flags: vec![],
    }
}

fn humongous_pause() -> GCPause {
    GCPause {
        attributes: vec!["young".to_string()],
        gc_type: "G1 Humongous Allocation".to_string(),
        is_full_gc: false,
        pause_nanos: 3_100_000_000,
        time_epoch: 1658739348,
        heap_sizing: HeapSizing::Unchanged,
    }
}

#[test]
fn test_g1gc_recommendations_humongous_allocations_with_region_below() {
    let pauses = vec![humongous_pause(), humongous_pause()];
    let recs = generate_recommendations(&g1_flags(1 * MIB), &pauses);
    assert!(!recs.is_empty());
    assert_eq!(recs, "recommendations
---------------
* 100.00% of GCs were humongous allocations adding 6.20 total seconds pause time, this indicates there are objects to big for your GC configuration. Region size is 1.0 mb. Consider raising it up to 2.0 mb");

    let recs = generate_recommendations(&g1_flags(2 * MIB), &pauses);
    assert!(!recs.is_empty());
    assert_eq!(recs, "recommendations
---------------
* 100.00% of GCs were humongous allocations adding 6.20 total seconds pause time, this indicates there are objects to big for your GC configuration. Region size is 2.0 mb. Consider raising it up to 4.0 mb");
    let recs = generate_recommendations(&g1_flags(4 * MIB), &pauses);
    assert!(!recs.is_empty());
    assert_eq!(recs, "recommendations
---------------
* 100.00% of GCs were humongous allocations adding 6.20 total seconds pause time, this indicates there are objects to big for your GC configuration. Region size is 4.0 mb. Consider raising it up to 8.0 mb");
    let recs = generate_recommendations(&g1_flags(8 * MIB), &pauses);
    assert!(!recs.is_empty());
    assert_eq!(recs, "recommendations
---------------
* 100.00% of GCs were humongous allocations adding 6.20 total seconds pause time, this indicates there are objects to big for your GC configuration. Region size is 8.0 mb. Consider raising it up to 16.0 mb");
    let recs = generate_recommendations(&g1_flags(16 * MIB), &pauses);
    assert!(!recs.is_empty());
    assert_eq!(recs, "recommendations
---------------
* 100.00% of GCs were humongous allocations adding 6.20 total seconds pause time, this indicates there are objects to big for your GC configuration. Region size is 16.0 mb. Consider raising it up to 32.0 mb");
}

#[test]
fn test_g1gc_recommendations_humongous_allocations_with_region_at_max() {
    let pauses = vec![humongous_pause(), humongous_pause()];
    let recs = generate_recommendations(&g1_flags(32 * MIB), &pauses);
    assert!(!recs.is_empty());
    assert_eq!(recs, "recommendations
---------------
* 100.00% of GCs were humongous allocations adding 6.20 total seconds pause time, this indicates there are objects to big for your GC configuration. Region size is already maxed out at 32.0 mb. Therefore one either needs to change the gc collector from G1GC or begin looking for expensive queries or system bugs");
}

#[test]
fn test_recommendations_are_empty() {
    let recs = generate_recommendations(&g1_flags(32 * MIB), &vec![]);
    assert!(recs.is_empty());
}

#[test]
fn test_cms_detected() {
    let recs = generate_recommendations(&other_flags(Collector::CMS), &vec![]);
    assert!(!recs.is_empty());
    assert!(recs.contains("CMS GC collector detected"));
}

#[test]
fn test_parallel_gc_detected() {
    let recs = generate_recommendations(&other_flags(Collector::Parallel), &vec![]);
    assert!(!recs.is_empty());
    assert!(recs.contains("Parallel GC collector detected"));
}

#[test]
fn test_serial_gc_detected() {
    let recs = generate_recommendations(&other_flags(Collector::SerialGC), &vec![]);
    assert!(!recs.is_empty());
    assert!(recs.contains("Serial GC collector detected"));
}

#[test]
fn test_serial_zgc_detected() {
    let recs = generate_recommendations(&other_flags(Collector::ZGC), &vec![]);
    assert!(!recs.is_empty());
    assert!(recs.contains("ZGC GC collector detected"));
}

#[test]
fn test_serial_shenandoah_detected() {
    let recs = generate_recommendations(&other_flags(Collector::Shenandoah), &vec![]);
    assert!(!recs.is_empty());
    assert!(recs.contains("Shenandoah GC collector detected"));
}

#[test]
fn test_serial_unknown_detected() {
    let recs = generate_recommendations(&other_flags(Collector::Unknown), &vec![]);
    assert!(!recs.is_empty());
    assert!(recs.contains("Unknown GC collector detected"));
}

#[test]
fn test_to_space_exhausted_gc_detected() {
    let pauses = vec![
        GCPause {
            attributes: vec!["young".to_string(), "to-space exhausted".to_string()],
            gc_type: "G1 Evacuation Pause".to_string(),
            is_full_gc: false,
            pause_nanos: 30_000_000_000,
            time_epoch: 1658739348,
            heap_sizing: HeapSizing::Unchanged,
        },
        GCPause {
            attributes: vec!["young".to_string(), "to-space exhausted".to_string()],
            gc_type: "G1 Evacuation Pause".to_string(),
            is_full_gc: false,
            pause_nanos: 30_000_000_000,
            time_epoch: 1658739348,
            heap_sizing: HeapSizing::Unchanged,
        },
    ];
    let recs = generate_recommendations(&g1_flags(1 * MIB), &pauses);
    assert!(!recs.is_empty());
    assert_eq!("recommendations
---------------
* 100.00% of GCs were to-space exhausted adding 60.00 total seconds pause time with a max pause time of 30.00 seconds, this means the max heap size was too small for use case during that time. Raising the heap size will help minimize the chance of this occuring again.", recs);
}

#[test]
fn test_full_gc_recommendation() {
    let pauses = vec![GCPause {
        attributes: vec!["Allocation Failure".to_string()],
        gc_type: "Full GC".to_string(),
        is_full_gc: true,
        pause_nanos: 4_000_000_000,
        time_epoch: 1658739348,
        heap_sizing: HeapSizing::Unchanged,
    }];
    let recs = generate_recommendations(&g1_flags(32 * MIB), &pauses);
    assert!(recs.contains("* 100.00% of GCs were Full GCs adding 4.00 total seconds pause time"));
}

#[test]
fn test_resize_recommendation_fires_when_heap_bounds_differ() {
    let flags = GCFlags {
        collector: Collector::G1GC,
        max_heap_bytes: 32 * GIB,
        min_heap_bytes: 2 * GIB,
        region_size_bytes: 32 * MIB,
        target_pause_millis: 500,
        max_direct_memory_bytes: 40 * GIB,
        all_flags: vec![],
    };
    let pauses = vec![GCPause {
        attributes: vec!["young".to_string()],
        gc_type: "G1 Evacuation Pause".to_string(),
        is_full_gc: false,
        pause_nanos: 500_000_000,
        time_epoch: 1658739348,
        heap_sizing: HeapSizing::Expansion,
    }];
    let recs = generate_recommendations(&flags, &pauses);
    assert!(recs.contains("1 pauses sized up the GC, 0 pauses sized down the GC"));
}
