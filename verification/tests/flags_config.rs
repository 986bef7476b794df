use gclog::flags::{
    get_collector, get_max_direct_memory_bytes, get_max_heap_size_bytes, get_min_heap_size_bytes,
    parse_gc_flags, Collector, GCFlags,
};
use gclog::g1gc::{get_g1_gc_region_size_bytes, get_g1_target_millis, get_region_for_heap};

const GIB: f64 = 1024.0 * 1024.0 * 1024.0;
const MIB: f64 = 1024.0 * 1024.0;

fn assert_approx_equal(a: f64, b: f64, tolerance: f64) {
    if (a - b).abs() > tolerance {
        panic!("expected {a} but was {b}")
    }
}

#[test]
fn test_parse_collector() {
    let g1_gc = get_collector(&vec!["-XX:+UseG1GC".to_string(), "".to_string()]);
    assert_eq!(g1_gc, Collector::G1GC);
    let parallel_gc = get_collector(&vec!["-XX:+UseParallelGC".to_string(), "".to_string()]);
    assert_eq!(parallel_gc, Collector::Parallel);
    let cms = get_collector(&vec!["-XX:+UseParNewGC".to_string(), "".to_string()]);
    assert_eq!(cms, Collector::CMS);
    let serial = get_collector(&vec!["-XX:+UseSerialGC".to_string(), "".to_string()]);
    assert_eq!(serial, Collector::SerialGC);
    let zgc = get_collector(&vec!["-XX:+UseZGC".to_string(), "".to_string()]);
    assert_eq!(zgc, Collector::ZGC);
    let shenandoah = get_collector(&vec!["-XX:+UseShenandoahGC".to_string(), "".to_string()]);
    assert_eq!(shenandoah, Collector::Shenandoah);
    let unknown = get_collector(&vec!["-XX:+UseBobGC".to_string(), "".to_string()]);
    assert_eq!(unknown, Collector::Unknown);
}

#[test]
fn test_get_min_heap() {
    let gc_flags = vec!["-XX:InitialHeapSize=64424509440".to_string()];
    let min_heap_bytes = get_min_heap_size_bytes(&gc_flags, 0).unwrap();
    assert_eq!(min_heap_bytes as f64 / GIB, 60.0);
    assert_approx_equal(min_heap_bytes as f64 / GIB, 60.0, 0.01);
}

#[test]
fn test_default_get_min_heap() {
    let gc_flags = vec![];
    let min_heap_bytes = get_min_heap_size_bytes(&gc_flags, 64 * 1024 * 1024 * 1024).unwrap();
    assert_approx_equal(min_heap_bytes as f64 / GIB, 1.0, 0.01);
}

#[test]
fn test_default_get_min_heap_when_physical_memory_is_below_512mb() {
    let gc_flags = vec![];
    let min_heap_bytes = get_min_heap_size_bytes(&gc_flags, 256 * 1024 * 1024).unwrap();
    assert_approx_equal(min_heap_bytes as f64 / GIB, 8.0 / 1024.0, 0.01);
}

#[test]
fn test_get_max_heap() {
    let gc_flags = vec!["-XX:MaxHeapSize=64424509440".to_string()];
    let max_heap_bytes = get_max_heap_size_bytes(&gc_flags, 0).unwrap();
    assert_approx_equal(max_heap_bytes as f64 / GIB, 60.0, 0.01);
}

#[test]
fn test_default_get_max_heap() {
    let gc_flags = vec![];
    let max_heap_bytes = get_max_heap_size_bytes(&gc_flags, 240 * 1024 * 1024 * 1024).unwrap();
    assert_approx_equal(max_heap_bytes as f64 / GIB, 60.0, 0.01);
}

#[test]
fn test_default_get_max_heap_when_physical_memory_is_below_4gb() {
    let gc_flags = vec![];
    let max_heap_bytes = get_max_heap_size_bytes(&gc_flags, 2 * 1024 * 1024 * 1024).unwrap();
    assert_approx_equal(max_heap_bytes as f64 / GIB, 1.0, 0.01);
}

#[test]
fn test_get_max_direct_memory() {
    let gc_flags = vec!["-XX:MaxDirectMemorySize=64424509440".to_string()];
    let max_direct = get_max_direct_memory_bytes(&gc_flags, 32 * 1024 * 1024 * 1024).unwrap();
    assert_approx_equal(max_direct as f64 / GIB, 60.0, 0.01);
}

#[test]
fn test_get_default_max_direct_memory() {
    let gc_flags = vec![];
    let max_direct = get_max_direct_memory_bytes(&gc_flags, 32 * 1024 * 1024 * 1024).unwrap();
    assert_approx_equal(max_direct as f64 / GIB, 32.0, 0.01);
}

#[test]
fn test_get_target_millis() {
    let default_target_millis = get_g1_target_millis(&vec!["".to_string()]).unwrap();
    assert_eq!(default_target_millis, 200);
    let target_millis_with_flag = get_g1_target_millis(&vec![
        "".to_string(),
        "-XX:MaxGCPauseMillis=500".to_string(),
        "".to_string(),
    ])
    .unwrap();
    assert_eq!(target_millis_with_flag, 500);
}

#[test]
fn test_get_g1_gc_region_size_mb() {
    let region_bytes = get_g1_gc_region_size_bytes(
        0,
        &vec!["-XX:G1HeapRegionSize=33554432".to_string(), "".to_string()],
    )
    .unwrap();
    assert_approx_equal(region_bytes as f64 / MIB, 32.0, 0.01);
}

#[test]
fn test_get_g1_gc_region_size_mb_impossible_size() {
    // an impossible region size for G1, kept as given rather than rounded
    let region_bytes = get_g1_gc_region_size_bytes(
        0,
        &vec!["-XX:G1HeapRegionSize=32000000".to_string(), "".to_string()],
    )
    .unwrap();
    assert_approx_equal(region_bytes as f64 / MIB, 30.51, 0.01);
}

#[test]
fn test_default_g1gc_region_size() {
    assert_approx_equal(get_region_for_heap(1073741824) as f64 / MIB, 1.0, 0.01);
    assert_approx_equal(get_region_for_heap(4305670964) as f64 / MIB, 2.0, 0.01);
    assert_approx_equal(get_region_for_heap(8600672011) as f64 / MIB, 4.0, 0.01);
    assert_approx_equal(get_region_for_heap(17190606603) as f64 / MIB, 8.0, 0.01);
    assert_approx_equal(get_region_for_heap(34370475787) as f64 / MIB, 16.0, 0.01);
    assert_approx_equal(get_region_for_heap(68730214155) as f64 / MIB, 32.0, 0.01);
    assert_approx_equal(get_region_for_heap(137449690891) as f64 / MIB, 32.0, 0.01);
}

#[test]
fn test_region_size_boundaries_round_down() {
    // heaps exactly on the table's boundaries take the smaller region
    assert_eq!(get_region_for_heap(4 * 1024 * 1024 * 1024), 1024 * 1024);
    assert_eq!(get_region_for_heap(8 * 1024 * 1024 * 1024), 2 * 1024 * 1024);
    assert_eq!(get_region_for_heap(16 * 1024 * 1024 * 1024), 4 * 1024 * 1024);
    assert_eq!(get_region_for_heap(32 * 1024 * 1024 * 1024), 8 * 1024 * 1024);
    assert_eq!(get_region_for_heap(64 * 1024 * 1024 * 1024), 16 * 1024 * 1024);
    // far past the cap
    assert_eq!(get_region_for_heap(128 * 1024 * 1024 * 1024), 32 * 1024 * 1024);
}

#[test]
fn test_parse_gc_flags() {
    let line = "CommandLine flags: -XX:+DisableExplicitGC -XX:ErrorFile=/opt/dremio/data/hs_err_pid%p.log -XX:G1HeapRegionSize=33554432 -XX:GCLogFileSize=4096000 -XX:+HeapDumpOnOutOfMemoryError -XX:HeapDumpPath=/opt/dremio/data/ -XX:InitialHeapSize=2048000000 -XX:InitiatingHeapOccupancyPercent=25 -XX:MaxDirectMemorySize=120259084288 -XX:MaxGCPauseMillis=500 -XX:MaxHeapSize=17179869184 -XX:NumberOfGCLogFiles=5 -XX:+PrintClassHistogramAfterFullGC -XX:+PrintClassHistogramBeforeFullGC -XX:+PrintGC -XX:+PrintGCDateStamps -XX:+PrintGCDetails -XX:+PrintGCTimeStamps -XX:+UseCompressedClassPointers -XX:+UseCompressedOops -XX:+UseG1GC -XX:+UseGCLogFileRotation";
    let gc_flags = parse_gc_flags(line.to_string(), 128 * 1000 * 1000 * 1000).unwrap();
    assert_eq!(gc_flags.collector, Collector::G1GC);
    assert_approx_equal(gc_flags.region_size_bytes as f64 / MIB, 32.0, 0.01);
    assert_approx_equal(gc_flags.max_heap_bytes as f64 / GIB, 16.0, 0.01);
    assert_approx_equal(gc_flags.min_heap_bytes as f64 / GIB, 1.907, 0.01);
    assert_eq!(gc_flags.target_pause_millis, 500);
}

#[test]
fn test_print_gc_flags() {
    let all_flags = vec![
        "-XX:G1HeapRegionSize=33554432".to_string(),
        "-XX:+HeapDumpOnOutOfMemoryError".to_string(),
        "-XX:HeapDumpPath=/var/log/dremio".to_string(),
        "-XX:InitialHeapSize=1073741824".to_string(),
        "-XX:InitiatingHeapOccupancyPercent=25".to_string(),
        "-XX:MaxDirectMemorySize=64424509440".to_string(),
        "-XX:MaxGCPauseMillis=500".to_string(),
        "-XX:MaxHeapSize=34359738368".to_string(),
        "-XX:+PrintClassHistogramAfterFullGC".to_string(),
        "-XX:+PrintClassHistogramBeforeFullGC".to_string(),
        "-XX:+PrintGC".to_string(),
        "-XX:+PrintGCDateStamps".to_string(),
        "-XX:+PrintGCDetails".to_string(),
        "-XX:+PrintGCTimeStamps".to_string(),
        "-XX:+UseCompressedClassPointers".to_string(),
        "-XX:+UseCompressedOops".to_string(),
        "-XX:+UseG1GC".to_string(),
    ];
    let flags = GCFlags {
        collector: Collector::G1GC,
        max_heap_bytes: 10 * 1024 * 1024 * 1024,
        min_heap_bytes: 32 * 1024 * 1024 * 1024,
        region_size_bytes: 4 * 1024 * 1024,
        target_pause_millis: 200,
        max_direct_memory_bytes: 60 * 1024 * 1024 * 1024,
        all_flags,
    };
    let expected = "collector:           G1GC
target pause millis: 200
region size:         4.00 mb
max heap:            10.00 gb
initial heap:        32.00 gb
max direct memory:   60.00 gb
flags:
-XX:G1HeapRegionSize=33554432
-XX:+HeapDumpOnOutOfMemoryError
-XX:HeapDumpPath=/var/log/dremio
-XX:InitialHeapSize=1073741824
-XX:InitiatingHeapOccupancyPercent=25
-XX:MaxDirectMemorySize=64424509440
-XX:MaxGCPauseMillis=500
-XX:MaxHeapSize=34359738368
-XX:+PrintClassHistogramAfterFullGC
-XX:+PrintClassHistogramBeforeFullGC
-XX:+PrintGC
-XX:+PrintGCDateStamps
-XX:+PrintGCDetails
-XX:+PrintGCTimeStamps
-XX:+UseCompressedClassPointers
-XX:+UseCompressedOops
-XX:+UseG1GC";
    assert_eq!(flags.to_display_string(), expected.to_string());
}

#[test]
fn test_print_gc_flags_non_g1gc() {
    let all_flags = vec![
        "-XX:CICompilerCount=4".to_string(),
        "-XX:ErrorFile=/var/log/dremio/hs_err_pid%p.log".to_string(),
        "-XX:GCLogFileSize=4096000".to_string(),
        "-XX:+HeapDumpOnOutOfMemoryError".to_string(),
        "-XX:HeapDumpPath=/var/log/dremio".to_string(),
        "-XX:InitialHeapSize=1073741824".to_string(),
        "-XX:InitiatingHeapOccupancyPercent=25".to_string(),
        "-XX:MaxDirectMemorySize=64424509440".to_string(),
        "-XX:MaxHeapSize=64424509440".to_string(),
        "-XX:MaxNewSize=20971520000".to_string(),
        "-XX:MinHeapDeltaBytes=524288".to_string(),
        "-XX:NewSize=703594496".to_string(),
        "-XX:NumberOfGCLogFiles=5".to_string(),
        "-XX:OldSize=1408237568".to_string(),
        "-XX:+PrintClassHistogramAfterFullGC".to_string(),
        "-XX:+PrintClassHistogramBeforeFullGC".to_string(),
        "-XX:+PrintGC".to_string(),
        "-XX:+PrintGCTimeStamps".to_string(),
        "-XX:+UseFastUnorderedTimeStamps".to_string(),
        "-XX:+UseGCLogFileRotation".to_string(),
        "-XX:+UseParallelGC".to_string(),
    ];
    let flags = GCFlags {
        collector: Collector::Parallel,
        max_heap_bytes: 10 * 1024 * 1024 * 1024,
        min_heap_bytes: 32 * 1024 * 1024 * 1024,
        region_size_bytes: 0,
        target_pause_millis: 0,
        max_direct_memory_bytes: 60 * 1024 * 1024 * 1024,
        all_flags,
    };
    let expected = "collector:           Parallel
max heap:            10.00 gb
initial heap:        32.00 gb
max direct memory:   60.00 gb
flags:
-XX:CICompilerCount=4
-XX:ErrorFile=/var/log/dremio/hs_err_pid%p.log
-XX:GCLogFileSize=4096000
-XX:+HeapDumpOnOutOfMemoryError
-XX:HeapDumpPath=/var/log/dremio
-XX:InitialHeapSize=1073741824
-XX:InitiatingHeapOccupancyPercent=25
-XX:MaxDirectMemorySize=64424509440
-XX:MaxHeapSize=64424509440
-XX:MaxNewSize=20971520000
-XX:MinHeapDeltaBytes=524288
-XX:NewSize=703594496
-XX:NumberOfGCLogFiles=5
-XX:OldSize=1408237568
-XX:+PrintClassHistogramAfterFullGC
-XX:+PrintClassHistogramBeforeFullGC
-XX:+PrintGC
-XX:+PrintGCTimeStamps
-XX:+UseFastUnorderedTimeStamps
-XX:+UseGCLogFileRotation
-XX:+UseParallelGC";
    assert_eq!(flags.to_display_string(), expected.to_string());
}

#[test]
fn test_parse_gc_flags_rejects_bad_number() {
    let line = "CommandLine flags: -XX:MaxHeapSize=abc -XX:+UseG1GC";
    assert!(parse_gc_flags(line.to_string(), 0).is_none());
}
