//! The rule engine: turns the aggregated pauses and the inferred flags
//! into ordered tuning advice, one paragraph per rule that fires.
use vstd::prelude::*;
use crate::flags::{push_joined_nl, spec_join_nl, Collector, GCFlags};
use crate::numfmt::{push_digits, push_fixed1, push_fixed2, spec_digits, spec_fixed1, spec_fixed2};
use crate::pauses::{GCPause, HeapSizing};
use crate::strutil::{chars_eq_str, chars_to_string, push_str_chars, str_to_chars, str_to_string};

verus! {

broadcast use crate::strutil::lemma_chars_deep_view;

/// The counters one pass over the pauses collects.
pub struct RecCounts {
    pub to_space: int,
    pub to_space_total: int,
    pub to_space_max: int,
    pub full: int,
    pub full_total: int,
    pub full_max: int,
    pub humongous: int,
    pub humongous_total: int,
    pub up: int,
    pub down: int,
}

/// Whether a pause was tagged `to-space exhausted`.
pub open spec fn has_to_space(p: GCPause) -> bool {
    exists|i: int|
        0 <= i < p.attributes.deep_view().len() && p.attributes.deep_view()[i]
            == "to-space exhausted"@
}

/// The counters updated by one pause.
pub open spec fn rc_step(c: RecCounts, p: GCPause) -> RecCounts {
    let nanos = p.pause_nanos as int;
    let c1 = RecCounts {
        up: c.up + if p.heap_sizing == HeapSizing::Expansion {
            1int
        } else {
            0int
        },
        down: c.down + if p.heap_sizing == HeapSizing::Shrinking {
            1int
        } else {
            0int
        },
        ..c
    };
    let c2 = if has_to_space(p) {
        RecCounts {
            to_space: c1.to_space + 1,
            to_space_total: c1.to_space_total + nanos,
            to_space_max: if nanos > c1.to_space_max {
                nanos
            } else {
                c1.to_space_max
            },
            ..c1
        }
    } else {
        c1
    };
    if p.gc_type@ == "G1 Humongous Allocation"@ {
        RecCounts {
            humongous: c2.humongous + 1,
            humongous_total: c2.humongous_total + nanos,
            ..c2
        }
    } else if p.is_full_gc {
        RecCounts {
            full: c2.full + 1,
            full_total: c2.full_total + nanos,
            full_max: if nanos > c2.full_max {
                nanos
            } else {
                c2.full_max
            },
            ..c2
        }
    } else {
        c2
    }
}

/// The zeroed counters.
pub open spec fn rc_init() -> RecCounts {
    RecCounts {
        to_space: 0,
        to_space_total: 0,
        to_space_max: 0,
        full: 0,
        full_total: 0,
        full_max: 0,
        humongous: 0,
        humongous_total: 0,
        up: 0,
        down: 0,
    }
}

/// The counters after one pass over `ps`.
pub open spec fn rec_counts(ps: Seq<GCPause>) -> RecCounts
    decreases ps.len(),
{
    if ps.len() == 0 {
        rc_init()
    } else {
        rc_step(rec_counts(ps.drop_last()), ps.last())
    }
}

/// The counters stay bounded by the number of pauses.
pub proof fn lemma_rc_wf(ps: Seq<GCPause>)
    ensures
        ({
            let c = rec_counts(ps);
            &&& 0 <= c.to_space <= ps.len()
            &&& 0 <= c.full <= ps.len()
            &&& 0 <= c.humongous <= ps.len()
            &&& 0 <= c.up <= ps.len()
            &&& 0 <= c.down <= ps.len()
            &&& 0 <= c.to_space_total <= c.to_space * (u64::MAX as int)
            &&& 0 <= c.full_total <= c.full * (u64::MAX as int)
            &&& 0 <= c.humongous_total <= c.humongous * (u64::MAX as int)
            &&& 0 <= c.to_space_max <= u64::MAX
            &&& 0 <= c.full_max <= u64::MAX
        }),
    decreases ps.len(),
{
    if ps.len() > 0 {
        lemma_rc_wf(ps.drop_last());
        let c = rec_counts(ps.drop_last());
        let p = ps.last();
        assert(c.to_space_total + p.pause_nanos as int <= (c.to_space + 1) * (
        u64::MAX as int)) by (nonlinear_arith)
            requires
                c.to_space_total <= c.to_space * (u64::MAX as int),
                p.pause_nanos as int <= u64::MAX as int,
                c.to_space >= 0,
        ;
        assert(c.full_total + p.pause_nanos as int <= (c.full + 1) * (
        u64::MAX as int)) by (nonlinear_arith)
            requires
                c.full_total <= c.full * (u64::MAX as int),
                p.pause_nanos as int <= u64::MAX as int,
                c.full >= 0,
        ;
        assert(c.humongous_total + p.pause_nanos as int <= (c.humongous + 1) * (
        u64::MAX as int)) by (nonlinear_arith)
            requires
                c.humongous_total <= c.humongous * (u64::MAX as int),
                p.pause_nanos as int <= u64::MAX as int,
                c.humongous >= 0,
        ;
    }
}

/// The least power of two at or above `n`, counting up from `p`.
pub open spec fn next_pow2_from(n: int, p: int) -> int
    decreases (if n - p > 0 {
        n - p
    } else {
        0
    }),
{
    if p >= n || p < 1 {
        p
    } else {
        next_pow2_from(n, 2 * p)
    }
}

/// The least power of two at or above `n`.
pub open spec fn spec_next_pow2(n: int) -> int {
    next_pow2_from(n, 1)
}

fn next_pow2(n: u64) -> (r: u64)
    requires
        1 <= n <= 4611686018427387904,
    ensures
        r as int == spec_next_pow2(n as int),
{
    let mut p: u64 = 1;
    while p < n
        invariant
            1 <= p,
            n <= 4611686018427387904,
            spec_next_pow2(n as int) == next_pow2_from(n as int, p as int),
        decreases
                (if n > p {
                    n - p
                } else {
                    0
                }),
    {
        p = p * 2;
    }
    p
}

/// The paragraph for to-space-exhausted pauses.
pub open spec fn spec_para_to_space(count: int, total: int, tot: int, max: int) -> Seq<char> {
    "* "@ + spec_fixed2(count * 100, total)
        + "% of GCs were to-space exhausted adding "@ + spec_fixed2(tot, 1000000000)
        + " total seconds pause time with a max pause time of "@ + spec_fixed2(max, 1000000000)
        + " seconds, this means the max heap size was too small for use case during that time. Raising the heap size will help minimize the chance of this occuring again."@
}

fn para_to_space(count: u64, total: u64, tot: u128, max: u64) -> (r: String)
    requires
        1 <= total,
        tot < u128::MAX,
    ensures
        r@ == spec_para_to_space(count as int, total as int, tot as int, max as int),
{
    let mut out: Vec<char> = Vec::new();
    push_str_chars(&mut out, "* ");
    push_fixed2(&mut out, (count as u128) * 100, total as u128);
    push_str_chars(&mut out, "% of GCs were to-space exhausted adding ");
    push_fixed2(&mut out, tot, 1000000000);
    push_str_chars(&mut out, " total seconds pause time with a max pause time of ");
    push_fixed2(&mut out, max as u128, 1000000000);
    push_str_chars(
        &mut out,
        " seconds, this means the max heap size was too small for use case during that time. Raising the heap size will help minimize the chance of this occuring again.",
    );
    assert(out@ =~= spec_para_to_space(count as int, total as int, tot as int, max as int));
    chars_to_string(&out)
}

/// The advice on the region size for humongous allocations: once at the
/// 32 MiB cap a different message, otherwise doubling toward the next
/// power of two.
pub open spec fn spec_region_advice(rb: int) -> Seq<char> {
    let diff = if rb >= 33554432 {
        rb - 33554432
    } else {
        33554432 - rb
    };
    if diff * 100 < 2097152 {
        "Region size is already maxed out at 32.0 mb. Therefore one either needs to change the gc collector from G1GC or begin looking for expensive queries or system bugs"@
    } else {
        "Region size is "@ + spec_fixed1(rb, 1048576) + " mb. Consider raising it up to "@
            + spec_digits(spec_next_pow2(rb / 1048576 + 1)) + ".0 mb"@
    }
}

/// The paragraph for humongous-allocation pauses.
pub open spec fn spec_para_humongous(count: int, total: int, tot: int, rb: int) -> Seq<char> {
    "* "@ + spec_fixed2(count * 100, total)
        + "% of GCs were humongous allocations adding "@ + spec_fixed2(tot, 1000000000)
        + " total seconds pause time, this indicates there are objects to big for your GC configuration. "@
        + spec_region_advice(rb)
}

fn para_humongous(count: u64, total: u64, tot: u128, rb: u64) -> (r: String)
    requires
        1 <= total,
        tot < u128::MAX,
    ensures
        r@ == spec_para_humongous(count as int, total as int, tot as int, rb as int),
{
    let mut out: Vec<char> = Vec::new();
    push_str_chars(&mut out, "* ");
    push_fixed2(&mut out, (count as u128) * 100, total as u128);
    push_str_chars(&mut out, "% of GCs were humongous allocations adding ");
    push_fixed2(&mut out, tot, 1000000000);
    push_str_chars(
        &mut out,
        " total seconds pause time, this indicates there are objects to big for your GC configuration. ",
    );
    let diff: u64 = if rb >= 33554432 {
        rb - 33554432
    } else {
        33554432 - rb
    };
    if (diff as u128) * 100 < 2097152 {
        push_str_chars(
            &mut out,
            "Region size is already maxed out at 32.0 mb. Therefore one either needs to change the gc collector from G1GC or begin looking for expensive queries or system bugs",
        );
    } else {
        push_str_chars(&mut out, "Region size is ");
        push_fixed1(&mut out, rb as u128, 1048576);
        push_str_chars(&mut out, " mb. Consider raising it up to ");
        let np = next_pow2(rb / 1048576 + 1);
        push_digits(&mut out, np as u128);
        push_str_chars(&mut out, ".0 mb");
    }
    assert(out@ =~= spec_para_humongous(count as int, total as int, tot as int, rb as int));
    chars_to_string(&out)
}

/// The paragraph for full collections.
pub open spec fn spec_para_full(count: int, total: int, tot: int, max: int) -> Seq<char> {
    "* "@ + spec_fixed2(count * 100, total)
        + "% of GCs were Full GCs adding "@ + spec_fixed2(tot, 1000000000)
        + " total seconds pause time with a max pause time of "@ + spec_fixed2(max, 1000000000)
        + " seconds,  this means the max heap size was too small for use case during that time. Raising the heap size will help minimize the chance of this occuring."@
}

fn para_full(count: u64, total: u64, tot: u128, max: u64) -> (r: String)
    requires
        1 <= total,
        tot < u128::MAX,
    ensures
        r@ == spec_para_full(count as int, total as int, tot as int, max as int),
{
    let mut out: Vec<char> = Vec::new();
    push_str_chars(&mut out, "* ");
    push_fixed2(&mut out, (count as u128) * 100, total as u128);
    push_str_chars(&mut out, "% of GCs were Full GCs adding ");
    push_fixed2(&mut out, tot, 1000000000);
    push_str_chars(&mut out, " total seconds pause time with a max pause time of ");
    push_fixed2(&mut out, max as u128, 1000000000);
    push_str_chars(
        &mut out,
        " seconds,  this means the max heap size was too small for use case during that time. Raising the heap size will help minimize the chance of this occuring.",
    );
    assert(out@ =~= spec_para_full(count as int, total as int, tot as int, max as int));
    chars_to_string(&out)
}

/// The paragraph for heap-resize churn.
pub open spec fn spec_para_resize(up: int, down: int, total: int) -> Seq<char> {
    "* "@ + spec_fixed2(up + down, total)
        + "% of GCs attempted to resize the JVM "@ + spec_digits(up)
        + " pauses sized up the GC, "@ + spec_digits(down)
        + " pauses sized down the GC. This adds additional time to the GC and makes pause times more variable, to resolve this set Xms and Xms to be the same, read https://blog.gceasy.io/2017/08/15/gc-log-standardization-api/ and https://docs.oracle.com/javase/9/gctuning/garbage-first-garbage-collector-tuning.htm#JSGCT-GUID-90E30ACA-8040-432E-B3A0-1E0440AB556A"@
}

fn para_resize(up: u64, down: u64, total: u64) -> (r: String)
    requires
        1 <= total,
    ensures
        r@ == spec_para_resize(up as int, down as int, total as int),
{
    let mut out: Vec<char> = Vec::new();
    push_str_chars(&mut out, "* ");
    push_fixed2(&mut out, (up as u128) + (down as u128), total as u128);
    push_str_chars(&mut out, "% of GCs attempted to resize the JVM ");
    push_digits(&mut out, up as u128);
    push_str_chars(&mut out, " pauses sized up the GC, ");
    push_digits(&mut out, down as u128);
    push_str_chars(
        &mut out,
        " pauses sized down the GC. This adds additional time to the GC and makes pause times more variable, to resolve this set Xms and Xms to be the same, read https://blog.gceasy.io/2017/08/15/gc-log-standardization-api/ and https://docs.oracle.com/javase/9/gctuning/garbage-first-garbage-collector-tuning.htm#JSGCT-GUID-90E30ACA-8040-432E-B3A0-1E0440AB556A",
    );
    assert(out@ =~= spec_para_resize(up as int, down as int, total as int));
    chars_to_string(&out)
}

/// The fixed advisory for the collector in use; G1 gets the sub-rules
/// instead.
pub open spec fn spec_collector_advice(c: Collector) -> Seq<char> {
    match c {
        Collector::SerialGC => "* Serial GC collector detected. This is an older collector and is only intended for single core machines. Use G1GC instead."@,
        Collector::CMS => "* CMS GC collector detected. This is an older collector and is removed in java 14. This can actually be a very performant collector, and if the machine is well tuned, it is best to leave it as it was. However, if you intend to raise the heap size consider the G1GC collector."@,
        Collector::Parallel => "* Parallel GC collector detected. This is an older collector and it will lead to long pauses. Use G1GC instead."@,
        Collector::ZGC => "* ZGC GC collector detected. This is a newer collector optimized for shorter gc pauses, however, it has some known issues with dremio (see https://dremio.atlassian.net/browse/DX-46569?focusedCommentId=494918). Consider using G1GC or CMS instead."@,
        Collector::Shenandoah => "* Shenandoah GC collector detected. This is a newer collector and is not yet full supported by Dremio (see https://dremio.atlassian.net/browse/DX-37567) and there may be some unexpected behavior consider using the G1GC collector."@,
        Collector::Unknown => "* Unknown GC collector detected. Review the JVM flags and try and submit a bug report for this new collector to https://dremio.atlassian.net/jira/software/c/projects/ST/issues/?filter=allissues"@,
        Collector::G1GC => Seq::empty(),
    }
}

fn collector_advice(c: Collector) -> (r: String)
    requires
        c != Collector::G1GC,
    ensures
        r@ == spec_collector_advice(c),
{
    match c {
        Collector::SerialGC => str_to_string(
            "* Serial GC collector detected. This is an older collector and is only intended for single core machines. Use G1GC instead.",
        ),
        Collector::CMS => str_to_string(
            "* CMS GC collector detected. This is an older collector and is removed in java 14. This can actually be a very performant collector, and if the machine is well tuned, it is best to leave it as it was. However, if you intend to raise the heap size consider the G1GC collector.",
        ),
        Collector::Parallel => str_to_string(
            "* Parallel GC collector detected. This is an older collector and it will lead to long pauses. Use G1GC instead.",
        ),
        Collector::ZGC => str_to_string(
            "* ZGC GC collector detected. This is a newer collector optimized for shorter gc pauses, however, it has some known issues with dremio (see https://dremio.atlassian.net/browse/DX-46569?focusedCommentId=494918). Consider using G1GC or CMS instead.",
        ),
        Collector::Shenandoah => str_to_string(
            "* Shenandoah GC collector detected. This is a newer collector and is not yet full supported by Dremio (see https://dremio.atlassian.net/browse/DX-37567) and there may be some unexpected behavior consider using the G1GC collector.",
        ),
        _ => str_to_string(
            "* Unknown GC collector detected. Review the JVM flags and try and submit a bug report for this new collector to https://dremio.atlassian.net/jira/software/c/projects/ST/issues/?filter=allissues",
        ),
    }
}

/// The ordered paragraphs the rules emit for the given configuration and
/// pauses.
pub open spec fn spec_rec_list(flags: GCFlags, ps: Seq<GCPause>) -> Seq<Seq<char>> {
    let c = rec_counts(ps);
    let total = ps.len() as int;
    let collector_part: Seq<Seq<char>> = if flags.collector == Collector::G1GC {
        (if c.to_space > 0 {
            seq![spec_para_to_space(c.to_space, total, c.to_space_total, c.to_space_max)]
        } else {
            Seq::empty()
        }) + (if c.humongous > 0 {
            seq![
                spec_para_humongous(
                    c.humongous,
                    total,
                    c.humongous_total,
                    flags.region_size_bytes as int,
                ),
            ]
        } else {
            Seq::empty()
        })
    } else {
        seq![spec_collector_advice(flags.collector)]
    };
    let full_part: Seq<Seq<char>> = if c.full > 0 && flags.collector != Collector::Parallel {
        seq![spec_para_full(c.full, total, c.full_total, c.full_max)]
    } else {
        Seq::empty()
    };
    let heap_diff = if flags.max_heap_bytes >= flags.min_heap_bytes {
        flags.max_heap_bytes - flags.min_heap_bytes
    } else {
        flags.min_heap_bytes - flags.max_heap_bytes
    };
    let resize_part: Seq<Seq<char>> = if c.up + c.down > 0 && heap_diff * 100 > 1073741824 {
        seq![spec_para_resize(c.up, c.down, total)]
    } else {
        Seq::empty()
    };
    collector_part + full_part + resize_part
}

/// The whole recommendations block: empty when no rule fired, otherwise
/// the paragraphs under the fixed header.
pub open spec fn spec_recommendations(flags: GCFlags, ps: Seq<GCPause>) -> Seq<char> {
    let recs = spec_rec_list(flags, ps);
    if recs.len() == 0 {
        Seq::empty()
    } else {
        "recommendations\n---------------\n"@ + spec_join_nl(recs)
    }
}

fn pause_has_to_space(p: &GCPause) -> (r: bool)
    ensures
        r == has_to_space(*p),
{
    let mut i: usize = 0;
    while i < p.attributes.len()
        invariant
            i <= p.attributes@.len(),
            forall|j: int|
                0 <= j < i ==> p.attributes.deep_view()[j] != "to-space exhausted"@,
        decreases p.attributes.len() - i,
    {
        let ac = str_to_chars(p.attributes[i].as_str());
        assert(ac@ == p.attributes.deep_view()[i as int]);
        if chars_eq_str(&ac, "to-space exhausted") {
            return true;
        }
        i += 1;
    }
    false
}

/// Emits the tuning advice for the analyzed log: a collector advisory or
/// the G1 sub-rules, a full-GC warning, and a heap-resize warning, joined
/// under the fixed header; the empty string when no rule fired.
pub fn generate_recommendations(flags: &GCFlags, pauses: &Vec<GCPause>) -> (r: String)
    ensures
        r@ == spec_recommendations(*flags, pauses@),
{
    let ghost ps = pauses@;
    // one pass over the pauses
    let mut to_space: u64 = 0;
    let mut to_space_total: u128 = 0;
    let mut to_space_max: u64 = 0;
    let mut full: u64 = 0;
    let mut full_total: u128 = 0;
    let mut full_max: u64 = 0;
    let mut humongous: u64 = 0;
    let mut humongous_total: u128 = 0;
    let mut up: u64 = 0;
    let mut down: u64 = 0;
    let mut i: usize = 0;
    assert(ps.take(0) =~= Seq::<GCPause>::empty());
    while i < pauses.len()
        invariant
            i <= ps.len(),
            ps == pauses@,
            rec_counts(ps.take(i as int)) == (RecCounts {
                to_space: to_space as int,
                to_space_total: to_space_total as int,
                to_space_max: to_space_max as int,
                full: full as int,
                full_total: full_total as int,
                full_max: full_max as int,
                humongous: humongous as int,
                humongous_total: humongous_total as int,
                up: up as int,
                down: down as int,
            }),
        decreases pauses.len() - i,
    {
        proof {
            lemma_rc_wf(ps.take(i as int));
            assert(ps.take(i as int + 1).drop_last() =~= ps.take(i as int));
            assert(ps.take(i as int + 1).last() == ps[i as int]);
            let c = rec_counts(ps.take(i as int));
            assert(c.to_space_total + u64::MAX as int <= (c.to_space + 1) * (
            u64::MAX as int)) by (nonlinear_arith)
                requires
                    c.to_space_total <= c.to_space * (u64::MAX as int),
                    c.to_space >= 0,
            ;
            assert(c.full_total + u64::MAX as int <= (c.full + 1) * (u64::MAX as int))
                by (nonlinear_arith)
                requires
                    c.full_total <= c.full * (u64::MAX as int),
                    c.full >= 0,
            ;
            assert(c.humongous_total + u64::MAX as int <= (c.humongous + 1) * (
            u64::MAX as int)) by (nonlinear_arith)
                requires
                    c.humongous_total <= c.humongous * (u64::MAX as int),
                    c.humongous >= 0,
            ;
            assert((c.to_space + 1) * (u64::MAX as int) < u128::MAX as int) by (nonlinear_arith)
                requires
                    0 <= c.to_space + 1 <= u64::MAX as int,
            ;
            assert((c.full + 1) * (u64::MAX as int) < u128::MAX as int) by (nonlinear_arith)
                requires
                    0 <= c.full + 1 <= u64::MAX as int,
            ;
            assert((c.humongous + 1) * (u64::MAX as int) < u128::MAX as int) by (nonlinear_arith)
                requires
                    0 <= c.humongous + 1 <= u64::MAX as int,
            ;
        }
        let p = &pauses[i];
        if p.heap_sizing == HeapSizing::Expansion {
            up = up + 1;
        } else if p.heap_sizing == HeapSizing::Shrinking {
            down = down + 1;
        }
        if pause_has_to_space(p) {
            to_space = to_space + 1;
            to_space_total = to_space_total + p.pause_nanos as u128;
            if p.pause_nanos > to_space_max {
                to_space_max = p.pause_nanos;
            }
        }
        let tc = str_to_chars(p.gc_type.as_str());
        if chars_eq_str(&tc, "G1 Humongous Allocation") {
            humongous = humongous + 1;
            humongous_total = humongous_total + p.pause_nanos as u128;
        } else if p.is_full_gc {
            full = full + 1;
            full_total = full_total + p.pause_nanos as u128;
            if p.pause_nanos > full_max {
                full_max = p.pause_nanos;
            }
        }
        i += 1;
    }
    assert(ps.take(ps.len() as int) =~= ps);
    let total: u64 = {
        let n = pauses.len();
        n as u64
    };
    proof {
        lemma_rc_wf(ps);
        let c = rec_counts(ps);
        assert(c.to_space * (u64::MAX as int) < u128::MAX as int) by (nonlinear_arith)
            requires
                0 <= c.to_space <= u64::MAX as int,
        ;
        assert(c.full * (u64::MAX as int) < u128::MAX as int) by (nonlinear_arith)
            requires
                0 <= c.full <= u64::MAX as int,
        ;
        assert(c.humongous * (u64::MAX as int) < u128::MAX as int) by (nonlinear_arith)
            requires
                0 <= c.humongous <= u64::MAX as int,
        ;
    }
    let ghost rl = spec_rec_list(*flags, ps);
    let mut recs: Vec<String> = Vec::new();
    assert(recs.deep_view() =~~= Seq::<Seq<char>>::empty());
    if flags.collector == Collector::G1GC {
        if to_space > 0 {
            let para = para_to_space(to_space, total, to_space_total, to_space_max);
            recs.push(para);
        }
        if humongous > 0 {
            let para = para_humongous(humongous, total, humongous_total, flags.region_size_bytes);
            recs.push(para);
        }
    } else {
        let para = collector_advice(flags.collector);
        recs.push(para);
    }
    if full > 0 && !(flags.collector == Collector::Parallel) {
        let para = para_full(full, total, full_total, full_max);
        recs.push(para);
    }
    let heap_diff: u64 = if flags.max_heap_bytes >= flags.min_heap_bytes {
        flags.max_heap_bytes - flags.min_heap_bytes
    } else {
        flags.min_heap_bytes - flags.max_heap_bytes
    };
    if (up as u128) + (down as u128) > 0 && (heap_diff as u128) * 100 > 1073741824 {
        let para = para_resize(up, down, total);
        recs.push(para);
    }
    assert(recs.deep_view() =~~= rl);
    if recs.len() == 0 {
        let r = String::new();
        assert(r@ =~= Seq::<char>::empty());
        r
    } else {
        let mut out: Vec<char> = Vec::new();
        push_str_chars(&mut out, "recommendations\n---------------\n");
        push_joined_nl(&mut out, &recs);
        assert(out@ =~= spec_recommendations(*flags, ps));
        chars_to_string(&out)
    }
}

} // verus!
