//! The record reassembler: consumes the log's lines one by one, consuming
//! each header line once, gathering multi-line records by bracket counting
//! with the histogram exception, and parsing every complete record into a
//! pause event.
use vstd::prelude::*;
use crate::flags::{parse_gc_flags, spec_flags_of_line, spec_gc_flags_ok, Collector, GCFlags};
use crate::jvmstats::{parse_jdk_stats, parse_memory, spec_memory_bytes, spec_memory_ok, MemoryStats};
use crate::pauses::{
    drop_before_full_gc, parse_full_gc_pause, parse_gc_pause, spec_epoch_value,
    spec_full_base_line, spec_full_gc_nanos, spec_gc_resizing, spec_has_gc,
    spec_head, spec_parsed_attrs, spec_parsed_nanos, spec_parsed_type, spec_rest, spec_scan,
    GCPause,
};
use crate::strutil::{
    chars_eq_str, chars_to_string, contains_seq, contains_str, count_char, count_char_exec,
    push_chars, push_str_chars, spec_split, split_char, starts_with_seq, starts_with_str, str_to_chars,
    str_to_string, sum_lens, trim_chars, trim_seq,
};

verus! {

broadcast use crate::strutil::lemma_chars_deep_view;

/// The bracket counts over the lines of a buffer, with counting suspended
/// between a line mentioning `Histogram` and the next line whose trimmed
/// text starts with `Total`.
pub open spec fn log_counts(
    lines: Seq<Seq<char>>,
    i: int,
    opens: int,
    closes: int,
    skip: bool,
) -> (int, int)
    decreases lines.len() - i,
{
    if i < 0 || i >= lines.len() {
        (opens, closes)
    } else {
        let line = lines[i];
        let skip0 = if starts_with_seq(trim_seq(line), "Total"@) {
            false
        } else {
            skip
        };
        if skip0 {
            log_counts(lines, i + 1, opens, closes, true)
        } else {
            log_counts(
                lines,
                i + 1,
                opens + count_char(line, '['),
                closes + count_char(line, ']'),
                contains_seq(line, "Histogram"@),
            )
        }
    }
}

/// Whether a buffered record is complete: its open and close bracket
/// counts balance, ignoring brackets inside a histogram block.
pub open spec fn spec_is_log_finished(s: Seq<char>) -> bool {
    let oc = log_counts(spec_split(s, '\n'), 0, 0, 0, false);
    oc.0 == oc.1
}

fn is_log_finished_chars(chars: &Vec<char>) -> (r: bool)
    ensures
        r == spec_is_log_finished(chars@),
{
    let lines = split_char(chars, '\n');
    let ghost ldv = lines.deep_view();
    let total = chars.len();
    proof {
        crate::strutil::lemma_split_sum_le(chars@, '\n');
        assert(ldv.take(0) =~= Seq::<Seq<char>>::empty());
    }
    let mut opens: usize = 0;
    let mut closes: usize = 0;
    let mut skip = false;
    let mut i: usize = 0;
    while i < lines.len()
        invariant
            i <= ldv.len(),
            ldv == lines.deep_view(),
            sum_lens(ldv) <= total as int,
            opens + closes <= sum_lens(ldv.take(i as int)),
            log_counts(ldv, 0, 0, 0, false) == log_counts(
                ldv,
                i as int,
                opens as int,
                closes as int,
                skip,
            ),
        decreases lines.len() - i,
    {
        let line = &lines[i];
        assert(line@ == ldv[i as int]);
        proof {
            crate::strutil::lemma_sum_lens_take_step(ldv, i as int);
            crate::strutil::lemma_sum_lens_take_le(ldv, i as int + 1);
            crate::strutil::lemma_count_two_le_len(line@, '[', ']');
        }
        let trimmed = trim_chars(line);
        if starts_with_str(&trimmed, "Total") {
            skip = false;
        }
        if skip {
        } else {
            let co = count_char_exec(line, '[');
            let cc = count_char_exec(line, ']');
            skip = contains_str(line, "Histogram");
            opens += co;
            closes += cc;
        }
        i += 1;
    }
    opens == closes
}

/// Whether a buffered record is complete under the histogram-aware bracket
/// count.
pub fn is_log_finished(multiline_log: &str) -> (r: bool)
    ensures
        r == spec_is_log_finished(multiline_log@),
{
    let chars = str_to_chars(multiline_log);
    is_log_finished_chars(&chars)
}

/// One reassembled record: a complete multi-line buffer, or a single
/// balanced line announcing a GC.
pub struct Record {
    pub multi: bool,
    pub text: Seq<char>,
}

/// What stops an analysis: an unreadable memory line or an unreadable
/// numeric flag. Duration and timestamp failures are local and never stop
/// the pass.
#[derive(Debug, PartialEq, Eq, Structural, Clone, Copy)]
pub enum AnalyzeError {
    MemoryLine,
    FlagsLine,
}

/// The reassembler's state while walking the lines.
pub struct ReState {
    pub parsed_cmd: bool,
    pub parsed_mem: bool,
    pub parsed_jdk: bool,
    pub jdk: Seq<char>,
    pub mem_line: Option<Seq<char>>,
    pub flags_input: Option<(Seq<char>, int)>,
    pub reading: bool,
    pub buf: Seq<char>,
    pub records: Seq<Record>,
}

/// The state before any line is read.
pub open spec fn re_init() -> ReState {
    ReState {
        parsed_cmd: false,
        parsed_mem: false,
        parsed_jdk: false,
        jdk: Seq::empty(),
        mem_line: None,
        flags_input: None,
        reading: false,
        buf: Seq::empty(),
        records: Seq::empty(),
    }
}

/// The physical-memory byte count known to the reassembler so far.
pub open spec fn mem_bytes_of(st: ReState) -> int {
    match st.mem_line {
        Some(l) => spec_memory_bytes(l),
        None => 0,
    }
}

/// One line of the reassembly: headers are consumed once each, a line with
/// unbalanced brackets opens a multi-line record, a multi-line record
/// closes when a line with a `]` balances the whole buffer, and a balanced
/// line announcing a GC is a complete record by itself. A completed
/// multi-line record whose type resolves to the after-histogram artifact
/// is dropped.
pub open spec fn re_step(st: ReState, line: Seq<char>) -> Result<ReState, AnalyzeError> {
    if !st.parsed_cmd && starts_with_seq(line, "CommandLine flags: "@) {
        if spec_gc_flags_ok(line, mem_bytes_of(st)) {
            Ok(ReState { parsed_cmd: true, flags_input: Some((line, mem_bytes_of(st))), ..st })
        } else {
            Err(AnalyzeError::FlagsLine)
        }
    } else if !st.parsed_mem && starts_with_seq(line, "Memory: "@) {
        if spec_memory_ok(line) {
            Ok(ReState { parsed_mem: true, mem_line: Some(line), ..st })
        } else {
            Err(AnalyzeError::MemoryLine)
        }
    } else if !st.parsed_jdk && (starts_with_seq(line, "OpenJDK "@) || starts_with_seq(
        line,
        "Java"@,
    )) {
        Ok(ReState { parsed_jdk: true, jdk: line, ..st })
    } else if st.reading {
        let buf2 = st.buf + "\n"@ + line;
        if contains_seq(line, "]"@) && spec_is_log_finished(buf2) {
            let keep = spec_parsed_type(spec_scan(spec_rest(spec_full_base_line(buf2))))
                != "after full gc"@;
            Ok(
                ReState {
                    reading: false,
                    buf: Seq::empty(),
                    records: if keep {
                        st.records.push(Record { multi: true, text: buf2 })
                    } else {
                        st.records
                    },
                    ..st
                },
            )
        } else {
            Ok(ReState { buf: buf2, ..st })
        }
    } else if count_char(line, '[') != count_char(line, ']') {
        Ok(ReState { reading: true, buf: line + "\n"@, ..st })
    } else if spec_has_gc(line) {
        Ok(ReState { records: st.records.push(Record { multi: false, text: line }), ..st })
    } else {
        Ok(st)
    }
}

/// The reassembly folded over the lines from `i` on.
pub open spec fn re_fold(lines: Seq<Seq<char>>, i: int, st: ReState) -> Result<
    ReState,
    AnalyzeError,
>
    decreases lines.len() - i,
{
    if i < 0 || i >= lines.len() {
        Ok(st)
    } else {
        match re_step(st, lines[i]) {
            Ok(st2) => re_fold(lines, i + 1, st2),
            Err(e) => Err(e),
        }
    }
}

/// The reassembly of a whole line stream.
pub open spec fn spec_analyze(lines: Seq<Seq<char>>) -> Result<ReState, AnalyzeError> {
    re_fold(lines, 0, re_init())
}

/// Everything the one pass over the log produces.
pub struct Analysis {
    pub jdk_stats: String,
    pub memory_stats: MemoryStats,
    pub gc_flags: GCFlags,
    pub pauses: Vec<GCPause>,
}

/// The pause `p` is the parse of the record `rec`.
pub open spec fn record_matches(p: GCPause, rec: Record) -> bool {
    if rec.multi {
        let st = spec_scan(spec_rest(spec_full_base_line(rec.text)));
        &&& p.gc_type@ == spec_parsed_type(st)
        &&& p.attributes.deep_view() == drop_before_full_gc(spec_parsed_attrs(st))
        &&& p.pause_nanos as int == spec_full_gc_nanos(rec.text)
        &&& p.time_epoch as int == spec_epoch_value(spec_head(spec_full_base_line(rec.text)))
        &&& p.is_full_gc == contains_seq(rec.text, "Full GC"@)
        &&& p.heap_sizing == spec_gc_resizing(rec.text)
    } else {
        let st = spec_scan(spec_rest(rec.text));
        &&& p.time_epoch as int == spec_epoch_value(spec_head(rec.text))
        &&& p.heap_sizing == spec_gc_resizing(spec_rest(rec.text))
        &&& p.is_full_gc == st.is_full
        &&& p.gc_type@ == spec_parsed_type(st)
        &&& p.attributes.deep_view() == spec_parsed_attrs(st)
        &&& p.pause_nanos as int == spec_parsed_nanos(st)
    }
}

/// The memory statistics are what the consumed memory line reports, or
/// zero and an empty display before one is seen.
pub open spec fn memory_matches(m: MemoryStats, line: Option<Seq<char>>) -> bool {
    match line {
        Some(l) => m.physical_memory_bytes as int == spec_memory_bytes(l)
            && m.physical_memory_str@ == "Total System RAM:    "@
            + crate::human::spec_human_bytes_base_1k(spec_memory_bytes(l)),
        None => m.physical_memory_bytes == 0 && m.physical_memory_str@ == Seq::<char>::empty(),
    }
}

/// The inferred flags are the parse of the consumed flags line, or the
/// unknown-collector default before one is seen.
pub open spec fn flags_matches(g: GCFlags, input: Option<(Seq<char>, int)>) -> bool {
    match input {
        Some((l, phys)) => {
            let fl = spec_flags_of_line(l);
            &&& g.all_flags.deep_view() == fl
            &&& g.collector == crate::flags::spec_collector(fl)
            &&& g.max_heap_bytes as int == crate::flags::spec_max_heap_bytes(fl, phys)->0
            &&& g.min_heap_bytes as int == crate::flags::spec_min_heap_bytes(fl, phys)->0
            &&& g.max_direct_memory_bytes as int == crate::flags::spec_max_direct_bytes(
                fl,
                crate::flags::spec_max_heap_bytes(fl, phys)->0,
            )->0
            &&& (g.collector == Collector::G1GC ==> g.region_size_bytes as int
                == crate::g1gc::spec_g1_region_bytes(
                fl,
                crate::flags::spec_max_heap_bytes(fl, phys)->0,
            )->0 && g.target_pause_millis as int == crate::g1gc::spec_g1_target_millis(fl)->0)
            &&& (g.collector != Collector::G1GC ==> g.region_size_bytes == 0
                && g.target_pause_millis == 0)
        },
        None => {
            &&& g.collector == Collector::Unknown
            &&& g.max_heap_bytes == 0
            &&& g.min_heap_bytes == 0
            &&& g.region_size_bytes == 0
            &&& g.target_pause_millis == 0
            &&& g.max_direct_memory_bytes == 0
            &&& g.all_flags.deep_view() == Seq::<Seq<char>>::empty()
        },
    }
}

/// Walks the log's lines once, consuming each header line at most once,
/// reassembling multi-line records, and parsing every complete record into
/// a pause event. Fails exactly where a consumed header cannot be read:
/// the memory line's kilobyte count or a recognized numeric flag;
/// timestamp and duration failures are local and default to zero.
pub fn analyze_lines(lines: &Vec<String>) -> (r: Result<Analysis, AnalyzeError>)
    ensures
        ({
            match spec_analyze(lines.deep_view()) {
                Err(e) => r matches Err(e2) && e2 == e,
                Ok(st) => r matches Ok(a) && {
                    &&& a.jdk_stats@ == st.jdk
                    &&& memory_matches(a.memory_stats, st.mem_line)
                    &&& flags_matches(a.gc_flags, st.flags_input)
                    &&& a.pauses@.len() == st.records.len()
                    &&& forall|k: int|
                        0 <= k < st.records.len() ==> record_matches(
                            #[trigger] a.pauses@[k],
                            st.records[k],
                        )
                },
            }
        }),
{
    let ghost ldv = lines.deep_view();
    let mut jdk_stats: String = String::new();
    let mut memory_stats = MemoryStats {
        physical_memory_str: String::new(),
        physical_memory_bytes: 0,
    };
    let mut gc_flags = GCFlags {
        collector: Collector::Unknown,
        max_heap_bytes: 0,
        min_heap_bytes: 0,
        region_size_bytes: 0,
        target_pause_millis: 0,
        max_direct_memory_bytes: 0,
        all_flags: Vec::new(),
    };
    let mut parsed_cmd = false;
    let mut parsed_mem = false;
    let mut parsed_jdk = false;
    let mut reading = false;
    let mut buf: Vec<char> = Vec::new();
    let mut pauses: Vec<GCPause> = Vec::new();
    let ghost mut g_mem_line: Option<Seq<char>> = None;
    let ghost mut g_flags_input: Option<(Seq<char>, int)> = None;
    let ghost mut g_records: Seq<Record> = Seq::empty();
    let mut i: usize = 0;
    assert(gc_flags.all_flags.deep_view() =~~= Seq::<Seq<char>>::empty());
    while i < lines.len()
        invariant
            i <= ldv.len(),
            ldv == lines.deep_view(),
            re_fold(
                ldv,
                i as int,
                ReState {
                    parsed_cmd,
                    parsed_mem,
                    parsed_jdk,
                    jdk: jdk_stats@,
                    mem_line: g_mem_line,
                    flags_input: g_flags_input,
                    reading,
                    buf: buf@,
                    records: g_records,
                },
            ) == spec_analyze(ldv),
            memory_matches(memory_stats, g_mem_line),
            memory_stats.physical_memory_bytes >= 0,
            flags_matches(gc_flags, g_flags_input),
            pauses@.len() == g_records.len(),
            forall|k: int|
                0 <= k < g_records.len() ==> record_matches(
                    #[trigger] pauses@[k],
                    g_records[k],
                ),
        decreases lines.len() - i,
    {
        let ghost pre = ReState {
            parsed_cmd,
            parsed_mem,
            parsed_jdk,
            jdk: jdk_stats@,
            mem_line: g_mem_line,
            flags_input: g_flags_input,
            reading,
            buf: buf@,
            records: g_records,
        };
        let line = &lines[i];
        let lc = str_to_chars(line.as_str());
        assert(lc@ == ldv[i as int]);
        if !parsed_cmd && starts_with_str(&lc, "CommandLine flags: ") {
            match parse_gc_flags(str_to_string(line.as_str()), memory_stats.physical_memory_bytes) {
                Some(g) => {
                    gc_flags = g;
                    parsed_cmd = true;
                    proof {
                        g_flags_input = Some((lc@, memory_stats.physical_memory_bytes as int));
                    }
                },
                None => {
                    assert(re_step(pre, ldv[i as int]) == Err::<ReState, AnalyzeError>(
                        AnalyzeError::FlagsLine,
                    ));
                    return Err(AnalyzeError::FlagsLine);
                },
            }
        } else if !parsed_mem && starts_with_str(&lc, "Memory: ") {
            match parse_memory(str_to_string(line.as_str())) {
                Some(m) => {
                    proof {
                        crate::numfmt::lemma_dec_value_nonneg(
                            crate::jvmstats::spec_memory_kilobytes(lc@)->0,
                        );
                    }
                    memory_stats = m;
                    parsed_mem = true;
                    proof {
                        g_mem_line = Some(lc@);
                    }
                },
                None => {
                    assert(re_step(pre, ldv[i as int]) == Err::<ReState, AnalyzeError>(
                        AnalyzeError::MemoryLine,
                    ));
                    return Err(AnalyzeError::MemoryLine);
                },
            }
        } else if !parsed_jdk && (starts_with_str(&lc, "OpenJDK ") || starts_with_str(
            &lc,
            "Java",
        )) {
            jdk_stats = parse_jdk_stats(str_to_string(line.as_str()));
            parsed_jdk = true;
        } else if reading {
            push_str_chars(&mut buf, "\n");
            push_chars(&mut buf, &lc);
            let ghost buf2 = pre.buf + "\n"@ + lc@;
            assert(buf@ == buf2);
            if contains_str(&lc, "]") && is_log_finished_chars(&buf) {
                reading = false;
                let text = chars_to_string(&buf);
                let p = parse_full_gc_pause(text);
                let tch = str_to_chars(p.gc_type.as_str());
                if !chars_eq_str(&tch, "after full gc") {
                    let ghost rec = Record { multi: true, text: buf2 };
                    assert(record_matches(p, rec));
                    pauses.push(p);
                    proof {
                        g_records = g_records.push(rec);
                    }
                }
                buf = Vec::new();
            }
        } else if count_char_exec(&lc, '[') != count_char_exec(&lc, ']') {
            reading = true;
            buf = lc;
            push_str_chars(&mut buf, "\n");
            assert(buf@ == ldv[i as int] + "\n"@);
        } else if has_gc_line(&lc) {
            let p = parse_gc_pause(str_to_string(line.as_str()));
            let ghost rec = Record { multi: false, text: lc@ };
            assert(record_matches(p, rec));
            pauses.push(p);
            proof {
                g_records = g_records.push(rec);
            }
        }
        i += 1;
    }
    Ok(Analysis { jdk_stats, memory_stats, gc_flags, pauses })
}

/// The whole report but its summary table, which is rendered outside and
/// handed in: the fixed headers, the consumed header lines, the inferred
/// configuration, the worst pause, the table, and the recommendations,
/// joined by single newlines.
pub open spec fn spec_report(a: Analysis, pause_table: Seq<char>) -> Seq<char> {
    "GC Summary:\n--------\n"@ + a.jdk_stats@ + "\n"@ + a.memory_stats.physical_memory_str@
        + "\n"@ + crate::flags::spec_gc_flags_display(a.gc_flags) + "\nMax Pause:\n--------\n"@
        + crate::pauses::spec_max_pause_block(a.pauses@) + "\n"@ + pause_table + "\n"@
        + crate::recommendations::spec_recommendations(a.gc_flags, a.pauses@)
}

/// Assembles the report around the rendered summary table.
pub fn build_report(a: &Analysis, pause_table: String) -> (r: String)
    ensures
        r@ == spec_report(*a, pause_table@),
{
    let mut out: Vec<char> = Vec::new();
    push_str_chars(&mut out, "GC Summary:\n--------\n");
    push_str_chars(&mut out, a.jdk_stats.as_str());
    push_str_chars(&mut out, "\n");
    push_str_chars(&mut out, a.memory_stats.physical_memory_str.as_str());
    push_str_chars(&mut out, "\n");
    let flags_block = a.gc_flags.to_display_string();
    push_str_chars(&mut out, flags_block.as_str());
    push_str_chars(&mut out, "\nMax Pause:\n--------\n");
    let max_block = crate::pauses::show_max_pause_times(&a.pauses);
    push_str_chars(&mut out, max_block.as_str());
    push_str_chars(&mut out, "\n");
    push_str_chars(&mut out, pause_table.as_str());
    push_str_chars(&mut out, "\n");
    let recs = crate::recommendations::generate_recommendations(&a.gc_flags, &a.pauses);
    push_str_chars(&mut out, recs.as_str());
    assert(out@ =~= spec_report(*a, pause_table@));
    chars_to_string(&out)
}

fn has_gc_line(line: &Vec<char>) -> (r: bool)
    ensures
        r == spec_has_gc(line@),
{
    contains_str(line, "GC pause") || contains_str(line, "GC (") || contains_str(line, "Full GC ")
}

} // verus!
