use gclog::analyze::{analyze_lines, AnalyzeError};
use gclog::flags::Collector;
use gclog::pauses::show_max_pause_times;
use gclog::recommendations::generate_recommendations;
use gclog::summary::generate_pause_table_rows;

fn to_lines(text: &str) -> Vec<String> {
    text.split('\n').map(|l| l.to_string()).collect()
}

const JDK_LINE: &str = "OpenJDK 64-Bit Server VM (25.332-b09) for linux-amd64 JRE (1.8.0_332-b09), built on Apr 20 2022 08:18:57 by \"openjdk\" with gcc 4.4.7 20120313 (Red Hat 4.4.7-23)";
const MEMORY_LINE: &str =
    "Memory: 4k page, physical 128000000k(127996468k free), swap 0k(0k free)";
const FLAGS_LINE: &str = "CommandLine flags: -XX:+DisableExplicitGC -XX:G1HeapRegionSize=33554432 -XX:InitialHeapSize=2048000000 -XX:MaxDirectMemorySize=120259084288 -XX:MaxGCPauseMillis=500 -XX:MaxHeapSize=17179869184 -XX:+UseCompressedOops -XX:+UseG1GC";

#[test]
fn analysis_reads_headers_once() {
    let mut lines = vec![
        JDK_LINE.to_string(),
        MEMORY_LINE.to_string(),
        FLAGS_LINE.to_string(),
    ];
    lines.push("Memory: 4k page, physical 1000k(1k free), swap 0k(0k free)".to_string());
    let a = analyze_lines(&lines).unwrap();
    assert_eq!(a.jdk_stats, JDK_LINE);
    // the second memory line is ignored: only the first is consumed
    assert_eq!(a.memory_stats.physical_memory_bytes, 128000000000);
    assert_eq!(a.gc_flags.collector, Collector::G1GC);
    assert_eq!(a.gc_flags.target_pause_millis, 500);
    assert_eq!(a.gc_flags.region_size_bytes, 33554432);
    assert!(a.pauses.is_empty());
}

#[test]
fn analysis_with_no_gc_lines_reports_no_pauses() {
    let lines = vec![
        JDK_LINE.to_string(),
        MEMORY_LINE.to_string(),
        FLAGS_LINE.to_string(),
        "some unrelated noise".to_string(),
    ];
    let a = analyze_lines(&lines).unwrap();
    assert!(a.pauses.is_empty());
    assert_eq!(show_max_pause_times(&a.pauses), "No Pauses");
    assert!(generate_pause_table_rows(&a.pauses).is_empty());
    // no rule fires for a G1 log without pauses: the section is omitted
    assert_eq!(generate_recommendations(&a.gc_flags, &a.pauses), "");
}

#[test]
fn analysis_parses_single_line_pause() {
    let lines = vec![
        "not great stuff to be starting a file with, see if the analyzer ignores me".to_string(),
        JDK_LINE.to_string(),
        MEMORY_LINE.to_string(),
        FLAGS_LINE.to_string(),
        "2021-02-22T01:01:02.120+0000: 22000.498: [GC pause (G1 Humongous Allocation) (young) (initial-mark), 0.0911111 secs]".to_string(),
    ];
    let a = analyze_lines(&lines).unwrap();
    assert_eq!(a.pauses.len(), 1);
    assert_eq!(a.pauses[0].gc_type, "G1 Humongous Allocation");
    let rows = generate_pause_table_rows(&a.pauses);
    assert_eq!(rows.len(), 1);
    assert_eq!(
        rows[0].gc_name,
        "G1 Humongous Allocation - (initial-mark)(young)"
    );
    assert_eq!(rows[0].longest_pause_seconds, "0.09");
}

#[test]
fn analysis_reassembles_full_gc_record() {
    let full_gc_text = "2022-01-02T11:11:01.111+0000: 234567.120: [Full GC (Allocation Failure) 2022-01-02T11:11:01.111+0000: 234567.120: [Class Histogram (before full gc):
num     #instances         #bytes  class name
----------------------------------------------
    1:       9013468      888888888  org.apache.arrow.memory.ArrowBuf
    2:       4547890      523123575  io.netty.buffer.PooledUnsafeDirectByteBuf
    20:        431460       91111101  [B
Total      99999999     8643256886
, 1.1111111 secs]
    4185M->1198M(5336M), 4.3449655 secs]
        [Eden: 0.0B(724.0M)->0.0B(6114.0M) Survivors: 0.0B->0.0B Heap: 8185.4M(8192.0M)->1111.0M(5335.0M)], [Metaspace: 111001K->111110K(1111704K)]";
    let mut lines = vec![
        JDK_LINE.to_string(),
        MEMORY_LINE.to_string(),
        FLAGS_LINE.to_string(),
        "2021-02-22T01:01:02.120+0000: 22000.498: [GC pause (G1 Humongous Allocation) (young) (initial-mark), 0.0911111 secs]".to_string(),
    ];
    lines.extend(to_lines(full_gc_text));
    let a = analyze_lines(&lines).unwrap();
    assert_eq!(a.pauses.len(), 2);
    let rows = generate_pause_table_rows(&a.pauses);
    assert_eq!(rows.len(), 2);
    assert_eq!(rows[0].gc_name, "Full GC - (Allocation Failure)");
    assert_eq!(rows[0].longest_pause_seconds, "4.34");
    assert_eq!(
        rows[1].gc_name,
        "G1 Humongous Allocation - (initial-mark)(young)"
    );
}

#[test]
fn analysis_parses_pause_with_nested_ergonomics() {
    let text = "2022-07-22T18:41:06.240+0000: 54055.679: [GC pause (G1 Evacuation Pause) (young) 54055.679: [G1Ergonomics (CSet Construction) start choosing CSet, _pending_cards: 3785, predicted base time: 8.89 ms, remaining time: 491.11 ms, target pause time: 500.00 ms]
54055.679: [G1Ergonomics (CSet Construction) add young regions to CSet, eden: 62 regions, survivors: 0 regions, predicted young region time: 298.30 ms]
54055.679: [G1Ergonomics (CSet Construction) finish choosing CSet, eden: 62 regions, survivors: 0 regions, old: 0 regions, predicted pause time: 307.19 ms, target pause time: 500.00 ms]
2022-07-22T18:41:06.509+0000: 54055.947: [SoftReference, 0 refs, 0.0000831 secs]2022-07-22T18:41:06.509+0000: 54055.947: [WeakReference, 343 refs, 0.0000987 secs]2022-07-22T18:41:06.509+0000: 54055.947: [FinalReference, 3 refs, 0.0000209 secs]2022-07-22T18:41:06.509+0000: 54055.947: [PhantomReference, 5 refs, 2 refs, 0.0000114 secs]2022-07-22T18:41:06.509+0000: 54055.947: [JNI Weak Reference, 0.0000921 secs] 54055.952: [G1Ergonomics (Heap Sizing) attempt heap expansion, reason: recent GC overhead higher than threshold after GC, recent GC overhead: 44.66 %, threshold: 10.00 %, uncommitted: 5301600256 bytes, calculated expansion amount: 1060320051 bytes (20.00 %)]
54055.952: [G1Ergonomics (Heap Sizing) expand the heap, requested expansion amount: 1060320051 bytes, attempted expansion amount: 1073741824 bytes]
54055.954: [G1Ergonomics (Concurrent Cycles) request concurrent cycle initiation, reason: occupancy higher than threshold, occupancy: 4664066048 bytes, allocation request: 0 bytes, threshold: 3238002675 bytes (25.00 %), source: end of GC]
, 0.2753957 secs]";
    let a = analyze_lines(&to_lines(text)).unwrap();
    assert_eq!(a.pauses.len(), 1);
    assert_eq!(a.pauses[0].gc_type, "G1 Evacuation Pause");
    let rows = generate_pause_table_rows(&a.pauses);
    assert_eq!(rows[0].longest_pause_seconds, "0.28");
}

#[test]
fn analysis_rejects_unreadable_memory_line() {
    let lines = vec!["Memory: bad".to_string()];
    assert!(matches!(analyze_lines(&lines), Err(AnalyzeError::MemoryLine)));
}

#[test]
fn analysis_rejects_unreadable_flag() {
    let lines = vec!["CommandLine flags: -XX:MaxHeapSize=abc".to_string()];
    assert!(matches!(analyze_lines(&lines), Err(AnalyzeError::FlagsLine)));
}

#[test]
fn report_has_fixed_sections_in_order() {
    let lines = vec![
        JDK_LINE.to_string(),
        MEMORY_LINE.to_string(),
        FLAGS_LINE.to_string(),
        "2021-02-22T01:01:02.120+0000: 22000.498: [GC pause (G1 Humongous Allocation) (young), 0.0911111 secs]".to_string(),
    ];
    let a = analyze_lines(&lines).unwrap();
    let report = gclog::analyze::build_report(&a, "<table>".to_string());
    assert!(report.starts_with("GC Summary:\n--------\n"));
    let jdk_at = report.find(JDK_LINE).unwrap();
    let ram_at = report.find("Total System RAM:    128.00 gb").unwrap();
    let flags_at = report.find("collector:           G1GC").unwrap();
    let max_at = report.find("Max Pause:\n--------\nTimestamp: ").unwrap();
    let table_at = report.find("<table>").unwrap();
    let recs_at = report.find("recommendations").unwrap();
    assert!(jdk_at < ram_at && ram_at < flags_at && flags_at < max_at);
    assert!(max_at < table_at && table_at < recs_at);
    assert!(report.contains("Pause Time 91 milliseconds\nPause Type G1 Humongous Allocation"));
}
