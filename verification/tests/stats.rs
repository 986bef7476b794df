use gclog::human::{
    human_bytes, human_bytes_base_1k, human_bytes_i128, human_duration, human_metric, human_time,
};
use gclog::jvmstats::{parse_jdk_stats, parse_memory};
use gclog::metrics::{clone_metrics, Metric};
use gclog::pauses::{GCPause, HeapSizing};
use gclog::summary::generate_pause_table_rows;

fn pause(gc_type: &str, attrs: Vec<&str>, nanos: u64) -> GCPause {
    GCPause {
        is_full_gc: gc_type == "Full GC",
        attributes: attrs.into_iter().map(|a| a.to_string()).collect(),
        gc_type: gc_type.to_string(),
        pause_nanos: nanos,
        time_epoch: 1658405469,
        heap_sizing: HeapSizing::Unchanged,
    }
}

#[test]
fn test_parse_memory() {
    let line =
        "Memory: 4k page, physical 128000000k(127996468k free), swap 0k(0k free)".to_string();
    let result = parse_memory(line).unwrap();
    assert_eq!(result.physical_memory_str, "Total System RAM:    128.00 gb");
    assert_eq!(result.physical_memory_bytes, 128000000 * 1000)
}

#[test]
fn test_parse_memory_rejects_short_line() {
    assert!(parse_memory("Memory: 4k page".to_string()).is_none());
}

#[test]
fn test_parse_jdk_stats_is_identity() {
    let line = "OpenJDK 64-Bit Server VM (25.332-b09)".to_string();
    assert_eq!(parse_jdk_stats(line.clone()), line);
}

#[test]
fn test_single_sample_percentiles_equal_the_sample() {
    // one sample of 91 ms: every percentile answers 0.09 seconds
    let pauses = vec![pause("G1 Evacuation Pause", vec!["young"], 91_111_100)];
    let rows = generate_pause_table_rows(&pauses);
    assert_eq!(rows.len(), 1);
    assert_eq!(rows[0].gc_name, "G1 Evacuation Pause - (young)");
    assert_eq!(rows[0].total_pauses, 1);
    assert_eq!(rows[0].p50, "0.09");
    assert_eq!(rows[0].p99, "0.09");
    assert_eq!(rows[0].shortest_pause_seconds, "0.09");
    assert_eq!(rows[0].longest_pause_seconds, "0.09");
}

#[test]
fn test_percentile_uses_rounded_milliseconds() {
    // 1.2455 s rounds to 1246 ms, so the percentile column agrees with the
    // extremes at two decimal places
    let pauses = vec![pause("G1 Evacuation Pause", vec!["young"], 1_245_500_000)];
    let rows = generate_pause_table_rows(&pauses);
    assert_eq!(rows[0].p50, "1.25");
    assert_eq!(rows[0].p99, "1.25");
    assert_eq!(rows[0].shortest_pause_seconds, "1.25");
    assert_eq!(rows[0].longest_pause_seconds, "1.25");
}

#[test]
fn test_percentiles_by_nearest_rank() {
    let pauses = vec![
        pause("G1 Evacuation Pause", vec!["young"], 100_000_000),
        pause("G1 Evacuation Pause", vec!["young"], 200_000_000),
        pause("G1 Evacuation Pause", vec!["young"], 300_000_000),
        pause("G1 Evacuation Pause", vec!["young"], 400_000_000),
    ];
    let rows = generate_pause_table_rows(&pauses);
    assert_eq!(rows.len(), 1);
    assert_eq!(rows[0].total_pauses, 4);
    // rank ceil(0.50 * 4) = 2 and ceil(0.99 * 4) = 4
    assert_eq!(rows[0].p50, "0.20");
    assert_eq!(rows[0].p99, "0.40");
    assert_eq!(rows[0].total_seconds_paused, "1.00");
    assert_eq!(rows[0].shortest_pause_seconds, "0.10");
    assert_eq!(rows[0].longest_pause_seconds, "0.40");
}

#[test]
fn test_rows_sorted_by_group_name() {
    let pauses = vec![
        pause("G1 Humongous Allocation", vec!["young"], 1_250_000_000),
        pause("G1 Evacuation Pause", vec!["young"], 2_750_000_000),
        pause("G1 Evacuation Pause", vec!["young"], 250_000_000),
    ];
    let rows = generate_pause_table_rows(&pauses);
    assert_eq!(rows.len(), 2);
    assert_eq!(rows[0].gc_name, "G1 Evacuation Pause - (young)");
    assert_eq!(rows[0].total_pauses, 2);
    assert_eq!(rows[0].total_seconds_paused, "3.00");
    assert_eq!(rows[0].shortest_pause_seconds, "0.25");
    assert_eq!(rows[0].longest_pause_seconds, "2.75");
    assert_eq!(rows[1].gc_name, "G1 Humongous Allocation - (young)");
    assert_eq!(rows[1].total_pauses, 1);
}

#[test]
fn test_human_duration() {
    assert_eq!(human_duration(999), "999 milliseconds");
    assert_eq!(human_duration(1500), "1.50 seconds");
    assert_eq!(human_duration(90000), "1.50 minutes");
    assert_eq!(human_duration(5400000), "1.50 hours");
    assert_eq!(human_duration(90061000), "1.04 days");
}

#[test]
fn test_human_bytes() {
    assert_eq!(human_bytes(10), "10 bytes");
    assert_eq!(human_bytes(1536), "1.50 kb");
    assert_eq!(human_bytes(5 * 1024 * 1024), "5.00 mb");
    assert_eq!(human_bytes(5 * 1024 * 1024 * 1024), "5.00 gb");
    assert_eq!(human_bytes_i128(3 * 1024 * 1024 * 1024 * 1024), "3.00 tb");
}

#[test]
fn test_human_bytes_base_1k() {
    assert_eq!(human_bytes_base_1k(128000000000), "128.00 gb");
    assert_eq!(human_bytes_base_1k(1500), "1.50 kb");
}

#[test]
fn test_human_time() {
    assert_eq!(human_time(1658405469000), "2022-07-21T12:11:09.0Z");
}

#[test]
fn test_human_metric() {
    assert_eq!(human_metric("FOO_BYTES_READ".to_string(), 2048), "2.00 kb");
    assert_eq!(human_metric("WAIT_NS".to_string(), 2_500_000_000), "2.50 seconds");
    assert_eq!(human_metric("OTHER".to_string(), 5), "");
}

#[test]
fn test_clone_metrics() {
    let metrics = vec![
        Metric { metric_id: 1, long_value: 10 },
        Metric { metric_id: 2, long_value: 20 },
    ];
    let copy = clone_metrics(&metrics);
    assert_eq!(copy.len(), 2);
    assert_eq!(copy[0].metric_id, 1);
    assert_eq!(copy[0].long_value, 10);
    assert_eq!(copy[1].metric_id, 2);
    assert_eq!(copy[1].long_value, 20);
}

fn approx_equal(a: f32, b: f32, tolerance: f32) -> bool {
    let diff = a - b;
    diff.abs() <= tolerance
}

#[test]
fn test_near_number() {
    assert!(approx_equal(0.991, 0.990, 0.1));
    assert!(approx_equal(0.991, 0.990, 0.01));
    //should fail
    assert!(!approx_equal(0.991, 0.990, 0.0001));
}

#[test]
fn test_near_one_another() {
    assert!(approx_equal(0.99, 1.0, 0.1));
    assert!(approx_equal(0.99, 1.0, 0.01));
    //should fail
    assert!(!approx_equal(0.99, 1.0, 0.001));
}
