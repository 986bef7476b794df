use gclog::analyze::is_log_finished;
use gclog::pauses::{
    generate_gc_name, has_gc, parse_full_gc_pause, parse_gc_pause, show_max_pause_times, GCPause,
    HeapSizing,
};

fn approx_equal_f64(a: f64, b: f64, tolerance: f64) -> bool {
    let diff = a - b;
    diff.abs() <= tolerance
}

#[test]
fn test_is_log_finished() {
    let log_with_histo = "2022-01-02T11:11:01.111+0000: 234567.120: [Full GC (Allocation Failure) 2022-01-02T11:11:01.111+0000: 234567.120: [Class Histogram (before full gc):
num     #instances         #bytes  class name
----------------------------------------------
    1:       9013468      888888888  org.apache.arrow.memory.ArrowBuf
    20:        431460       91111101  [B
    10821:             1             16  sun.util.resources.LocaleData$LocaleDataResourceBundleControl
Total      99999999     8643256886
, 1.1111111 secs]
";
    let result = is_log_finished(log_with_histo);
    assert!(!result);
    let log_with_histo_and_gc_time = "2022-01-02T11:11:01.111+0000: 234567.120: [Full GC (Allocation Failure) 2022-01-02T11:11:01.111+0000: 234567.120: [Class Histogram (before full gc):
num     #instances         #bytes  class name
----------------------------------------------
    20:        431460       91111101  [B
Total      99999999     8643256886
, 1.1111111 secs]
    4185M->1198M(5336M), 4.3449655 secs]
";
    let finished_result = is_log_finished(log_with_histo_and_gc_time);
    assert!(finished_result);
}

#[test]
fn test_parse_gc_pause_with_lots_of_commas() {
    let line = "2022-01-02T11:11:01.111+0000: 54105.596: [GC pause (G1 Evacuation Pause) (young) 54105.596: [G1Ergonomics (CSet Construction) start choosing CSet, _pending_cards: 0, predicted base time: 8.15 ms, remaining time: 491.85 ms, target pause time: 500.00 ms]
54105.596: [G1Ergonomics (CSet Construction) add young regions to CSet, eden: 0 regions, survivors: 0 regions, predicted young region time: 0.00 ms]
54105.596: [G1Ergonomics (CSet Construction) finish choosing CSet, eden: 0 regions, survivors: 0 regions, old: 0 regions, predicted pause time: 8.15 ms, target pause time: 500.00 ms]
2022-01-02T11:11:01.111+0000: 54105.603: [SoftReference, 0 refs, 0.0000313 secs]2022-01-02T11:11:01.111+0000: 54105.603: [WeakReference, 0 refs, 0.0000043 secs]2022-01-02T11:11:01.111+0000: 54105.603: [FinalReference, 0 refs, 0.0000039 secs]2022-01-02T11:11:01.111+0000: 54105.603: [PhantomReference, 0 refs, 0 refs, 0.0000040 secs]2022-01-02T11:11:01.111+0000: 54105.603: [JNI Weak Reference, 0.0000749 secs] 54105.604: [G1Ergonomics (Heap Sizing) attempt heap expansion, reason: recent GC overhead higher than threshold after GC, recent GC overhead: 51.72 %, threshold: 10.00 %, uncommitted: 0 bytes, calculated expansion amount: 0 bytes (20.00 %)]
, 0.9900000 secs]";
    let result = parse_gc_pause(line.to_string());
    assert_eq!(result.pause_nanos as f64 / 1e9, 0.9900000);
    assert_eq!(result.gc_type, "G1 Evacuation Pause");
    assert_eq!(result.attributes.len(), 1);
    assert_eq!(result.attributes[0], "young");
    assert_eq!(result.heap_sizing, HeapSizing::Unchanged);
}

#[test]
fn test_parse_gc_pause() {
    let line = "2021-02-22T01:01:02.120+0000: 22000.498: [GC pause (G1 Humongous Allocation) (young) (initial-mark), 0.0911111 secs]";
    let result = parse_gc_pause(line.to_string());
    assert_eq!(result.pause_nanos as f64 / 1e9, 0.0911111);
    assert_eq!(result.gc_type, "G1 Humongous Allocation");
    assert_eq!(result.attributes.len(), 2);
    assert_eq!(result.attributes[0], "young");
    assert_eq!(result.attributes[1], "initial-mark");
    assert!(!result.is_full_gc);
}

#[test]
fn test_parse_gc_pause_without_datetime_stamp() {
    let line =
        "16142.766: [GC (Allocation Failure)  24639447K->13665474K(26456064K), 0.0911111 secs]";
    let result = parse_gc_pause(line.to_string());
    assert_eq!(result.pause_nanos as f64 / 1e9, 0.0911111);
    assert_eq!(result.gc_type, "Allocation Failure");
    assert_eq!(result.attributes.len(), 0);
}

#[test]
fn test_parse_gc_pause_drops_empty_attribute_groups() {
    // an empty qualifier never reaches the attribute list
    let line = "16142.766: [GC (Allocation Failure) () (young), 0.5000000 secs]";
    let result = parse_gc_pause(line.to_string());
    assert_eq!(result.gc_type, "Allocation Failure");
    assert_eq!(result.attributes, vec!["young".to_string()]);
}

#[test]
fn test_parse_gc_pause_reads_timestamp() {
    let line = "2021-02-22T01:01:02.120+0000: 22000.498: [GC pause (G1 Evacuation Pause) (young), 0.0110001 secs]";
    let result = parse_gc_pause(line.to_string());
    // 2021-02-22T01:01:02 UTC
    assert_eq!(result.time_epoch, 1613955662);
}

#[test]
fn test_parse_gc_pause_bad_timestamp_is_zero() {
    let line = "16142.766: [GC (Allocation Failure), 0.0911111 secs]";
    let result = parse_gc_pause(line.to_string());
    assert_eq!(result.time_epoch, 0);
}

#[test]
fn test_parse_full_gc_pause() {
    let full_gc_line = "2022-01-02T11:11:01.111+0000: 234567.120: [Full GC (Allocation Failure) 2022-01-02T11:11:01.111+0000: 234567.120: [Class Histogram (before full gc):
num     #instances         #bytes  class name
----------------------------------------------
    1:       9013468      888888888  org.apache.arrow.memory.ArrowBuf
    2:       4547890      523123575  io.netty.buffer.PooledUnsafeDirectByteBuf
    3:         53333      444444444  [I
    4:       4312460      667801141  org.apache.arrow.memory.NettyAllocationManager
    5:       4312460      214605720  org.apache.arrow.memory.BufferLedger
    6:        964740      186324576  [J
    7:       4312460      153226880  io.netty.buffer.UnsafeDirectLittleEndian
    8:       4312460      147067264  [Ljava.lang.Object;
    9:       4312460      127067024  org.apache.arrow.vector.VarCharVector
    10:       4312460      124471040  io.netty.util.Recycler$DefaultHandle
    11:       4312460      101939880  org.apache.arrow.vector.BitVector
    12:       4312460       91111101  org.apache.arrow.memory.LowCostIdentityHashMap
    13:       4312460       91111101  com.dremio.exec.record.SimpleVectorWrapper
    14:       4312460       91111101  java.util.concurrent.atomic.AtomicInteger
    15:        431460       91111101  io.netty.buffer.PoolSubpage
    16:        431460       91111101  [C
    17:       4312460       91111101  org.apache.arrow.vector.complex.impl.VarCharReaderImpl
    18:       4312460       91111101  org.apache.arrow.vector.complex.impl.BitReaderImpl
    19:        431460       91111101  org.apache.arrow.vector.BigIntVector
    20:        431460       91111101  [B
    10821:             1             16  sun.util.resources.LocaleData$LocaleDataResourceBundleControl
Total      99999999     8643256886
, 1.1111111 secs]
    4185M->1198M(5336M), 4.3449655 secs]
        [Eden: 0.0B(724.0M)->0.0B(6114.0M) Survivors: 0.0B->0.0B Heap: 8185.4M(8192.0M)->1111.0M(5335.0M)], [Metaspace: 111001K->111110K(1111704K)]
";
    let result = parse_full_gc_pause(full_gc_line.to_string());
    assert_eq!(result.gc_type, "Full GC");
    assert!(
        approx_equal_f64(result.pause_nanos as f64 / 1e9, 4.34, 0.01),
        "expected {} but was {}",
        4.34,
        result.pause_nanos as f64 / 1e9
    );
}

#[test]
fn test_generate_gc_name() {
    let name = generate_gc_name(&GCPause {
        is_full_gc: false,
        attributes: vec!["to-space exhausted".to_string(), "young".to_string()],
        gc_type: "G1 Humongous Allocation".to_string(),
        pause_nanos: 1_200_000_000,
        time_epoch: 1658405469,
        heap_sizing: HeapSizing::Unchanged,
    });
    assert_eq!(name, "G1 Humongous Allocation - (to-space exhausted)(young)");
}

#[test]
fn test_generate_gc_name_is_order_independent() {
    let one = GCPause {
        is_full_gc: false,
        attributes: vec!["young".to_string(), "to-space exhausted".to_string()],
        gc_type: "G1 Evacuation Pause".to_string(),
        pause_nanos: 100_000_000,
        time_epoch: 0,
        heap_sizing: HeapSizing::Unchanged,
    };
    let other = GCPause {
        is_full_gc: false,
        attributes: vec!["to-space exhausted".to_string(), "young".to_string()],
        gc_type: "G1 Evacuation Pause".to_string(),
        pause_nanos: 200_000_000,
        time_epoch: 0,
        heap_sizing: HeapSizing::Unchanged,
    };
    assert_eq!(generate_gc_name(&one), generate_gc_name(&other));
    assert_eq!(
        generate_gc_name(&one),
        "G1 Evacuation Pause - (to-space exhausted)(young)"
    );
}

#[test]
fn test_has_gc() {
    assert!(has_gc("x [GC pause (young)]"));
    assert!(has_gc("16142.766: [GC (Allocation Failure)]"));
    assert!(has_gc("x [Full GC (Ergonomics)]"));
    assert!(!has_gc("    [Times: user=1.17 sys=0.23, real=0.07 secs]"));
}

#[test]
fn test_show_max_pause_times_empty() {
    assert_eq!(show_max_pause_times(&vec![]), "No Pauses");
}

#[test]
fn test_show_max_pause_times_picks_largest() {
    let pauses = vec![
        GCPause {
            is_full_gc: false,
            attributes: vec!["young".to_string()],
            gc_type: "G1 Evacuation Pause".to_string(),
            pause_nanos: 70_000_000,
            time_epoch: 1658405469,
            heap_sizing: HeapSizing::Unchanged,
        },
        GCPause {
            is_full_gc: true,
            attributes: vec![],
            gc_type: "Full GC".to_string(),
            pause_nanos: 4_344_965_500,
            time_epoch: 1641121861,
            heap_sizing: HeapSizing::Unchanged,
        },
    ];
    let shown = show_max_pause_times(&pauses);
    // 2022-01-02T11:11:01 UTC, rendered with a zero subsecond
    assert_eq!(
        shown,
        "Timestamp: 2022-01-02T11:11:01.0Z\nPause Time 4.34 seconds\nPause Type Full GC"
    );
}

#[test]
fn test_error_messages() {
    let se = gclog::pauses::SecondsParseError {
        seconds: "abc".to_string(),
        line: "x, abc secs]".to_string(),
    };
    assert_eq!(
        se.message(),
        "unable to seconds string of abc with line of 'x, abc secs]'"
    );
    let pe = gclog::pauses::ParseError { datetime_str: "not-a-date".to_string() };
    assert_eq!(pe.message(), "unable to parse date time string of not-a-date");
}

#[test]
fn test_parse_full_gc_pause_defaults_bad_duration_to_zero() {
    // a balanced record whose seconds token is not a number: the failure
    // is local, the duration defaults to zero
    let record = "1.0: [Full GC (Allocation Failure) 2.0: [x]
 y, zz secs]";
    let result = parse_full_gc_pause(record.to_string());
    assert_eq!(result.gc_type, "Full GC");
    assert_eq!(result.pause_nanos, 0);
}
