//! Inference of the JVM configuration from the `CommandLine flags:` log
//! line: the collector in use, heap bounds, direct-memory bound, and, for
//! G1, region size and pause target, falling back to the JDK8 default
//! formulas where a flag is absent.
use vstd::prelude::*;
use crate::numfmt::{all_digits, dec_value, parse_u64, spec_digits, spec_fixed2};
use crate::strutil::{
    chars_to_string, push_str_chars, spec_split, split_char, starts_with_seq, starts_with_str,
    str_to_chars, subrange_chars,
};
use vstd::string::StrSliceExecFns;

verus! {

broadcast use crate::strutil::lemma_chars_deep_view;

/// The garbage collector that the flag list selects.
#[derive(Debug, PartialEq, Eq, Structural, Clone, Copy)]
pub enum Collector {
    SerialGC,
    G1GC,
    CMS,
    Parallel,
    ZGC,
    Shenandoah,
    Unknown,
}

/// The collector named by the first flag matching one of the six fixed
/// `-XX:+Use...GC` switches, scanned in list order.
pub open spec fn spec_collector(flags: Seq<Seq<char>>) -> Collector
    decreases flags.len(),
{
    if flags.len() == 0 {
        Collector::Unknown
    } else if flags[0] == "-XX:+UseZGC"@ {
        Collector::ZGC
    } else if flags[0] == "-XX:+UseG1GC"@ {
        Collector::G1GC
    } else if flags[0] == "-XX:+UseShenandoahGC"@ {
        Collector::Shenandoah
    } else if flags[0] == "-XX:+UseParallelGC"@ {
        Collector::Parallel
    } else if flags[0] == "-XX:+UseParNewGC"@ {
        Collector::CMS
    } else if flags[0] == "-XX:+UseSerialGC"@ {
        Collector::SerialGC
    } else {
        spec_collector(flags.drop_first())
    }
}

/// Scans the flag list for the collector switch; the first match wins.
pub fn get_collector(gc_flags: &Vec<String>) -> (r: Collector)
    ensures
        r == spec_collector(gc_flags.deep_view()),
{
    let ghost dv = gc_flags.deep_view();
    let mut i: usize = 0;
    assert(dv.skip(0) =~= dv);
    while i < gc_flags.len()
        invariant
            i <= dv.len(),
            dv == gc_flags.deep_view(),
            spec_collector(dv) == spec_collector(dv.skip(i as int)),
        decreases gc_flags.len() - i,
    {
        let ghost pre = dv.skip(i as int);
        assert(pre[0] == dv[i as int]);
        assert(pre.drop_first() =~= dv.skip(i as int + 1));
        let fc = str_to_chars(gc_flags[i].as_str());
        assert(fc@ == dv[i as int]);
        if crate::strutil::chars_eq_str(&fc, "-XX:+UseZGC") {
            return Collector::ZGC;
        } else if crate::strutil::chars_eq_str(&fc, "-XX:+UseG1GC") {
            return Collector::G1GC;
        } else if crate::strutil::chars_eq_str(&fc, "-XX:+UseShenandoahGC") {
            return Collector::Shenandoah;
        } else if crate::strutil::chars_eq_str(&fc, "-XX:+UseParallelGC") {
            return Collector::Parallel;
        } else if crate::strutil::chars_eq_str(&fc, "-XX:+UseParNewGC") {
            return Collector::CMS;
        } else if crate::strutil::chars_eq_str(&fc, "-XX:+UseSerialGC") {
            return Collector::SerialGC;
        }
        i += 1;
    }
    assert(dv.skip(dv.len() as int) =~= Seq::<Seq<char>>::empty());
    Collector::Unknown
}

/// The text after `p` in the first flag that begins with `p`, if any.
pub open spec fn flag_value(flags: Seq<Seq<char>>, p: Seq<char>) -> Option<Seq<char>>
    decreases flags.len(),
{
    if flags.len() == 0 {
        None
    } else if starts_with_seq(flags[0], p) {
        Some(flags[0].skip(p.len() as int))
    } else {
        flag_value(flags.drop_first(), p)
    }
}

/// Whether `s` is a non-empty digit string whose value fits a `u64`.
pub open spec fn valid_u64(s: Seq<char>) -> bool {
    s.len() > 0 && all_digits(s) && dec_value(s) <= u64::MAX
}

/// The numeric value attached to the first flag beginning with `prefix`:
/// `None` when no flag carries the prefix, `Some(None)` when the attached
/// text is not a readable number, and `Some(Some(v))` otherwise.
pub fn flag_number(gc_flags: &Vec<String>, prefix: &str) -> (r: Option<Option<u64>>)
    ensures
        ({
            match flag_value(gc_flags.deep_view(), prefix@) {
                None => r is None,
                Some(s) => r is Some && (match r->0 {
                    Some(v) => valid_u64(s) && v as int == dec_value(s),
                    None => !valid_u64(s),
                }),
            }
        }),
{
    let ghost dv = gc_flags.deep_view();
    let ghost p = prefix@;
    let mut i: usize = 0;
    assert(dv.skip(0) =~= dv);
    while i < gc_flags.len()
        invariant
            i <= dv.len(),
            dv == gc_flags.deep_view(),
            p == prefix@,
            flag_value(dv, p) == flag_value(dv.skip(i as int), p),
        decreases gc_flags.len() - i,
    {
        let ghost pre = dv.skip(i as int);
        assert(pre[0] == dv[i as int]);
        assert(pre.drop_first() =~= dv.skip(i as int + 1));
        let fc = str_to_chars(gc_flags[i].as_str());
        assert(fc@ == dv[i as int]);
        if starts_with_str(&fc, prefix) {
            let plen = prefix.unicode_len();
            let suffix = subrange_chars(&fc, plen, fc.len());
            assert(suffix@ =~= dv[i as int].skip(p.len() as int));
            return Some(parse_u64(&suffix));
        }
        i += 1;
    }
    assert(dv.skip(dv.len() as int) =~= Seq::<Seq<char>>::empty());
    None
}

/// The minimum (initial) heap size in bytes: the `-XX:InitialHeapSize=`
/// flag, or the JDK8 default of one sixty-fourth of physical memory,
/// floored at 8 MiB. `None` when the flag's value is unreadable.
pub open spec fn spec_min_heap_bytes(flags: Seq<Seq<char>>, phys: int) -> Option<int> {
    match flag_value(flags, "-XX:InitialHeapSize="@) {
        Some(s) => if valid_u64(s) {
            Some(dec_value(s))
        } else {
            None
        },
        None => {
            let exp = phys / 64;
            if exp < 8388608 {
                Some(8388608)
            } else {
                Some(exp)
            }
        },
    }
}

/// The minimum (initial) heap size in bytes.
pub fn get_min_heap_size_bytes(gc_flags: &Vec<String>, physical_memory_bytes: i64) -> (r: Option<
    u64,
>)
    requires
        physical_memory_bytes >= 0,
    ensures
        r is Some <==> spec_min_heap_bytes(gc_flags.deep_view(), physical_memory_bytes as int)
            is Some,
        r is Some ==> r->0 as int == spec_min_heap_bytes(
            gc_flags.deep_view(),
            physical_memory_bytes as int,
        )->0,
{
    match flag_number(gc_flags, "-XX:InitialHeapSize=") {
        Some(v) => v,
        None => {
            let exp = (physical_memory_bytes as u64) / 64;
            if exp < 8388608 {
                Some(8388608)
            } else {
                Some(exp)
            }
        },
    }
}

/// The maximum heap size in bytes: the `-XX:MaxHeapSize=` flag, or the JDK8
/// default of a quarter of physical memory, floored at 1 GiB. `None` when
/// the flag's value is unreadable.
pub open spec fn spec_max_heap_bytes(flags: Seq<Seq<char>>, phys: int) -> Option<int> {
    match flag_value(flags, "-XX:MaxHeapSize="@) {
        Some(s) => if valid_u64(s) {
            Some(dec_value(s))
        } else {
            None
        },
        None => {
            let exp = phys / 4;
            if exp < 1073741824 {
                Some(1073741824)
            } else {
                Some(exp)
            }
        },
    }
}

/// The maximum heap size in bytes.
pub fn get_max_heap_size_bytes(gc_flags: &Vec<String>, physical_memory_bytes: i64) -> (r: Option<
    u64,
>)
    requires
        physical_memory_bytes >= 0,
    ensures
        r is Some <==> spec_max_heap_bytes(gc_flags.deep_view(), physical_memory_bytes as int)
            is Some,
        r is Some ==> r->0 as int == spec_max_heap_bytes(
            gc_flags.deep_view(),
            physical_memory_bytes as int,
        )->0,
{
    match flag_number(gc_flags, "-XX:MaxHeapSize=") {
        Some(v) => v,
        None => {
            let exp = (physical_memory_bytes as u64) / 4;
            if exp < 1073741824 {
                Some(1073741824)
            } else {
                Some(exp)
            }
        },
    }
}

/// The direct-memory bound in bytes: the `-XX:MaxDirectMemorySize=` flag,
/// or, as JDK8 defaults it, the maximum heap size. `None` when the flag's
/// value is unreadable.
pub open spec fn spec_max_direct_bytes(flags: Seq<Seq<char>>, max_heap: int) -> Option<int> {
    match flag_value(flags, "-XX:MaxDirectMemorySize="@) {
        Some(s) => if valid_u64(s) {
            Some(dec_value(s))
        } else {
            None
        },
        None => Some(max_heap),
    }
}

/// The direct-memory bound in bytes.
pub fn get_max_direct_memory_bytes(gc_flags: &Vec<String>, max_heap_bytes: u64) -> (r: Option<
    u64,
>)
    ensures
        r is Some <==> spec_max_direct_bytes(gc_flags.deep_view(), max_heap_bytes as int) is Some,
        r is Some ==> r->0 as int == spec_max_direct_bytes(
            gc_flags.deep_view(),
            max_heap_bytes as int,
        )->0,
{
    match flag_number(gc_flags, "-XX:MaxDirectMemorySize=") {
        Some(v) => v,
        None => Some(max_heap_bytes),
    }
}


/// The inferred JVM configuration: the collector and its memory bounds, all
/// sizes in bytes, with the raw flag list kept for display.
pub struct GCFlags {
    pub collector: Collector,
    pub max_heap_bytes: u64,
    pub min_heap_bytes: u64,
    pub region_size_bytes: u64,
    pub target_pause_millis: u64,
    pub max_direct_memory_bytes: u64,
    pub all_flags: Vec<String>,
}

/// The flag tokens of a `CommandLine flags:` line: everything after the
/// first two whitespace-separated tokens.
pub open spec fn spec_flags_of_line(line: Seq<char>) -> Seq<Seq<char>> {
    let toks = spec_split(line, ' ');
    if toks.len() >= 2 {
        toks.skip(2)
    } else {
        Seq::empty()
    }
}

/// Whether every numeric flag on the line is readable, so that flag
/// inference succeeds.
pub open spec fn spec_gc_flags_ok(line: Seq<char>, phys: int) -> bool {
    let fl = spec_flags_of_line(line);
    &&& spec_max_heap_bytes(fl, phys) is Some
    &&& spec_min_heap_bytes(fl, phys) is Some
    &&& spec_max_direct_bytes(fl, spec_max_heap_bytes(fl, phys)->0) is Some
    &&& (spec_collector(fl) == Collector::G1GC ==> {
        &&& crate::g1gc::spec_g1_region_bytes(fl, spec_max_heap_bytes(fl, phys)->0) is Some
        &&& crate::g1gc::spec_g1_target_millis(fl) is Some
    })
}

/// Parses the `CommandLine flags:` line into the inferred configuration.
/// Returns `None` exactly when one of the recognized numeric flags carries
/// an unreadable value.
pub fn parse_gc_flags(line: String, physical_memory_bytes: i64) -> (r: Option<GCFlags>)
    requires
        physical_memory_bytes >= 0,
    ensures
        r is Some <==> spec_gc_flags_ok(line@, physical_memory_bytes as int),
        r is Some ==> ({
            let fl = spec_flags_of_line(line@);
            let g = r->0;
            &&& g.all_flags.deep_view() == fl
            &&& g.collector == spec_collector(fl)
            &&& g.max_heap_bytes as int == spec_max_heap_bytes(fl, physical_memory_bytes as int)->0
            &&& g.min_heap_bytes as int == spec_min_heap_bytes(fl, physical_memory_bytes as int)->0
            &&& g.max_direct_memory_bytes as int == spec_max_direct_bytes(
                fl,
                spec_max_heap_bytes(fl, physical_memory_bytes as int)->0,
            )->0
            &&& (g.collector == Collector::G1GC ==> g.region_size_bytes as int
                == crate::g1gc::spec_g1_region_bytes(
                fl,
                spec_max_heap_bytes(fl, physical_memory_bytes as int)->0,
            )->0 && g.target_pause_millis as int == crate::g1gc::spec_g1_target_millis(fl)->0)
            &&& (g.collector != Collector::G1GC ==> g.region_size_bytes == 0
                && g.target_pause_millis == 0)
        }),
{
    let chars = str_to_chars(line.as_str());
    let toks = split_char(&chars, ' ');
    let mut all_flags: Vec<String> = Vec::new();
    let ghost fl = spec_flags_of_line(line@);
    let mut i: usize = 2;
    if toks.len() < 2 {
        i = toks.len();
        assert(fl =~= Seq::<Seq<char>>::empty());
    } else {
        assert(fl =~= toks.deep_view().skip(2));
    }
    assert(all_flags.deep_view() =~~= Seq::<Seq<char>>::empty());
    while i < toks.len()
        invariant
            2 <= i || i == toks@.len(),
            i <= toks@.len(),
            toks@.len() >= 2 ==> fl == toks.deep_view().skip(2),
            toks@.len() < 2 ==> fl == Seq::<Seq<char>>::empty(),
            all_flags.deep_view() =~~= if toks@.len() >= 2 {
                toks.deep_view().subrange(2, i as int)
            } else {
                Seq::<Seq<char>>::empty()
            },
        decreases toks@.len() - i,
    {
        let ghost old_fl = all_flags.deep_view();
        let f = chars_to_string(&toks[i]);
        assert(f@ == toks.deep_view()[i as int]);
        all_flags.push(f);
        assert(all_flags.deep_view() =~~= old_fl.push(toks.deep_view()[i as int]));
        i += 1;
    }
    assert(all_flags.deep_view() =~~= fl);
    let collector = get_collector(&all_flags);
    let max_heap_bytes = match get_max_heap_size_bytes(&all_flags, physical_memory_bytes) {
        Some(v) => v,
        None => {
            return None;
        },
    };
    let min_heap_bytes = match get_min_heap_size_bytes(&all_flags, physical_memory_bytes) {
        Some(v) => v,
        None => {
            return None;
        },
    };
    let max_direct_memory_bytes = match get_max_direct_memory_bytes(&all_flags, max_heap_bytes) {
        Some(v) => v,
        None => {
            return None;
        },
    };
    let mut target_pause_millis: u64 = 0;
    let mut region_size_bytes: u64 = 0;
    if collector == Collector::G1GC {
        region_size_bytes = match crate::g1gc::get_g1_gc_region_size_bytes(
            max_heap_bytes,
            &all_flags,
        ) {
            Some(v) => v,
            None => {
                return None;
            },
        };
        target_pause_millis = match crate::g1gc::get_g1_target_millis(&all_flags) {
            Some(v) => v,
            None => {
                return None;
            },
        };
    }
    Some(
        GCFlags {
            collector,
            max_heap_bytes,
            min_heap_bytes,
            region_size_bytes,
            target_pause_millis,
            max_direct_memory_bytes,
            all_flags,
        },
    )
}

/// The display name of each collector variant.
pub open spec fn spec_collector_name(c: Collector) -> Seq<char> {
    match c {
        Collector::SerialGC => "SerialGC"@,
        Collector::G1GC => "G1GC"@,
        Collector::CMS => "CMS"@,
        Collector::Parallel => "Parallel"@,
        Collector::ZGC => "ZGC"@,
        Collector::Shenandoah => "Shenandoah"@,
        Collector::Unknown => "Unknown"@,
    }
}

/// The display name of a collector variant.
pub fn collector_name(c: Collector) -> (r: &'static str)
    ensures
        r@ == spec_collector_name(c),
{
    match c {
        Collector::SerialGC => "SerialGC",
        Collector::G1GC => "G1GC",
        Collector::CMS => "CMS",
        Collector::Parallel => "Parallel",
        Collector::ZGC => "ZGC",
        Collector::Shenandoah => "Shenandoah",
        Collector::Unknown => "Unknown",
    }
}

/// The items of `ss` joined by single newlines.
pub open spec fn spec_join_nl(ss: Seq<Seq<char>>) -> Seq<char>
    decreases ss.len(),
{
    if ss.len() == 0 {
        Seq::empty()
    } else if ss.len() == 1 {
        ss[0]
    } else {
        ss[0] + "\n"@ + spec_join_nl(ss.drop_first())
    }
}

proof fn lemma_join_nl_push(ss: Seq<Seq<char>>, x: Seq<char>)
    requires
        ss.len() >= 1,
    ensures
        spec_join_nl(ss.push(x)) == spec_join_nl(ss) + "\n"@ + x,
    decreases ss.len(),
{
    if ss.len() == 1 {
        assert(ss.push(x)[0] == ss[0]);
        assert(ss.push(x).drop_first() =~= seq![x]);
        assert(spec_join_nl(seq![x]) == x);
    } else {
        assert(ss.push(x).drop_first() =~= ss.drop_first().push(x));
        lemma_join_nl_push(ss.drop_first(), x);
    }
}

/// Appends the items of `items`, joined by single newlines, to `out`.
pub fn push_joined_nl(out: &mut Vec<char>, items: &Vec<String>)
    ensures
        final(out)@ == old(out)@ + spec_join_nl(items.deep_view()),
{
    let ghost dv = items.deep_view();
    if items.len() == 0 {
        assert(out@ =~= old(out)@ + spec_join_nl(dv));
        return ;
    }
    push_str_chars(out, items[0].as_str());
    let mut i: usize = 1;
    assert(dv.take(1) =~= seq![dv[0]]);
    assert(spec_join_nl(dv.take(1)) == dv[0]);
    while i < items.len()
        invariant
            1 <= i <= dv.len(),
            dv == items.deep_view(),
            out@ == old(out)@ + spec_join_nl(dv.take(i as int)),
        decreases items.len() - i,
    {
        push_str_chars(out, "\n");
        push_str_chars(out, items[i].as_str());
        proof {
            assert(dv.take(i as int + 1) =~= dv.take(i as int).push(dv[i as int]));
            lemma_join_nl_push(dv.take(i as int), dv[i as int]);
        }
        i += 1;
    }
    assert(dv.take(dv.len() as int) =~= dv);
}

/// The display block of an inferred configuration: the collector, the
/// G1-only lines where they apply, the memory bounds in GiB and MiB with
/// two decimal places, and the raw flag list.
pub open spec fn spec_gc_flags_display(g: GCFlags) -> Seq<char> {
    if g.collector == Collector::G1GC {
        "collector:           "@ + spec_collector_name(g.collector)
            + "\ntarget pause millis: "@ + spec_digits(g.target_pause_millis as int)
            + "\nregion size:         "@ + spec_fixed2(g.region_size_bytes as int, 1048576)
            + " mb\nmax heap:            "@ + spec_fixed2(g.max_heap_bytes as int, 1073741824)
            + " gb\ninitial heap:        "@ + spec_fixed2(g.min_heap_bytes as int, 1073741824)
            + " gb\nmax direct memory:   "@ + spec_fixed2(
            g.max_direct_memory_bytes as int,
            1073741824,
        ) + " gb\nflags:\n"@ + spec_join_nl(g.all_flags.deep_view())
    } else {
        "collector:           "@ + spec_collector_name(g.collector)
            + "\nmax heap:            "@ + spec_fixed2(g.max_heap_bytes as int, 1073741824)
            + " gb\ninitial heap:        "@ + spec_fixed2(g.min_heap_bytes as int, 1073741824)
            + " gb\nmax direct memory:   "@ + spec_fixed2(
            g.max_direct_memory_bytes as int,
            1073741824,
        ) + " gb\nflags:\n"@ + spec_join_nl(g.all_flags.deep_view())
    }
}

impl GCFlags {
    /// Renders the configuration block shown at the top of the report.
    pub fn to_display_string(&self) -> (r: String)
        ensures
            r@ == spec_gc_flags_display(*self),
    {
        let mut out: Vec<char> = Vec::new();
        push_str_chars(&mut out, "collector:           ");
        push_str_chars(&mut out, collector_name(self.collector));
        if self.collector == Collector::G1GC {
            push_str_chars(&mut out, "\ntarget pause millis: ");
            let t = crate::numfmt::fmt_u64(self.target_pause_millis);
            push_str_chars(&mut out, t.as_str());
            push_str_chars(&mut out, "\nregion size:         ");
            crate::numfmt::push_fixed2(&mut out, self.region_size_bytes as u128, 1048576);
            push_str_chars(&mut out, " mb\nmax heap:            ");
        } else {
            push_str_chars(&mut out, "\nmax heap:            ");
        }
        crate::numfmt::push_fixed2(&mut out, self.max_heap_bytes as u128, 1073741824);
        push_str_chars(&mut out, " gb\ninitial heap:        ");
        crate::numfmt::push_fixed2(&mut out, self.min_heap_bytes as u128, 1073741824);
        push_str_chars(&mut out, " gb\nmax direct memory:   ");
        crate::numfmt::push_fixed2(&mut out, self.max_direct_memory_bytes as u128, 1073741824);
        push_str_chars(&mut out, " gb\nflags:\n");
        push_joined_nl(&mut out, &self.all_flags);
        assert(out@ =~= spec_gc_flags_display(*self));
        chars_to_string(&out)
    }
}

} // verus!
