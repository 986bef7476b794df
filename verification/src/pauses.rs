//! Parsing of GC pause records: the character-level scan of a single pause
//! line, the multi-line full-GC record parser with its histogram-aware
//! bracket counting, group naming, and the worst-pause display.
use vstd::prelude::*;
use crate::numfmt::{is_dec_digit, parse_secs_nanos, spec_secs_nanos};
use crate::strutil::{
    chars_eq_str, chars_to_string, contains_seq, contains_str, count_char, count_char_exec,
    ends_with_seq, ends_with_str, find_first, first_sub_idx, last_nonempty, last_nonempty_exec,
    push_chars, push_str_chars, spec_split, spec_split_on, split_char, split_on, starts_with_seq,
    starts_with_str, str_to_chars, str_to_string, subrange_chars, trim_chars, trim_seq,
};
use crate::order::{lex_leq_fn, sort_chars_vecs};
use crate::human::{human_duration, human_time, spec_human_duration, spec_human_time};

verus! {

broadcast use crate::strutil::lemma_chars_deep_view;

/// Whether a pause grew, shrank, or left the committed heap alone.
#[derive(Debug, PartialEq, Eq, Structural, Clone, Copy)]
pub enum HeapSizing {
    Unchanged,
    Expansion,
    Shrinking,
}

/// One GC pause event, extracted from a single- or multi-line record.
pub struct GCPause {
    pub is_full_gc: bool,
    pub attributes: Vec<String>,
    pub gc_type: String,
    pub pause_nanos: u64,
    pub time_epoch: i64,
    pub heap_sizing: HeapSizing,
}

/// The error for a pause-duration token that cannot be read as seconds.
#[derive(Debug)]
pub struct SecondsParseError {
    pub seconds: String,
    pub line: String,
}

impl SecondsParseError {
    /// Describes the failure for display.
    pub fn message(&self) -> (r: String)
        ensures
            r@ == "unable to seconds string of "@ + self.seconds@ + " with line of '"@
                + self.line@ + "'"@,
    {
        let mut out: Vec<char> = Vec::new();
        push_str_chars(&mut out, "unable to seconds string of ");
        push_str_chars(&mut out, self.seconds.as_str());
        push_str_chars(&mut out, " with line of '");
        push_str_chars(&mut out, self.line.as_str());
        push_str_chars(&mut out, "'");
        assert(out@ =~= "unable to seconds string of "@ + self.seconds@ + " with line of '"@
            + self.line@ + "'"@);
        chars_to_string(&out)
    }
}

/// The error for a wall-clock prefix that is not a readable timestamp.
#[derive(Debug)]
pub struct ParseError {
    pub datetime_str: String,
}

impl ParseError {
    /// Describes the failure for display.
    pub fn message(&self) -> (r: String)
        ensures
            r@ == "unable to parse date time string of "@ + self.datetime_str@,
    {
        let mut out: Vec<char> = Vec::new();
        push_str_chars(&mut out, "unable to parse date time string of ");
        push_str_chars(&mut out, self.datetime_str.as_str());
        assert(out@ =~= "unable to parse date time string of "@ + self.datetime_str@);
        chars_to_string(&out)
    }
}

/// Whether a line announces a GC event.
pub open spec fn spec_has_gc(line: Seq<char>) -> bool {
    contains_seq(line, "GC pause"@) || contains_seq(line, "GC ("@) || contains_seq(
        line,
        "Full GC "@,
    )
}

fn has_gc_chars(line: &Vec<char>) -> (r: bool)
    ensures
        r == spec_has_gc(line@),
{
    contains_str(line, "GC pause") || contains_str(line, "GC (") || contains_str(line, "Full GC ")
}

/// Whether the line announces a GC event: it mentions a GC pause, a GC with
/// a cause, or a full GC.
pub fn has_gc(line: &str) -> (r: bool)
    ensures
        r == spec_has_gc(line@),
{
    let chars = str_to_chars(line);
    has_gc_chars(&chars)
}

/// The heap-resize signal of a record, by its fixed phrases: a calculated
/// expansion of zero bytes or a declined expansion mean no change, an
/// expansion or attempted expansion means growth, a shrink means shrinking.
pub open spec fn spec_gc_resizing(line: Seq<char>) -> HeapSizing {
    if contains_seq(line, "calculated expansion amount: 0 bytes"@) || contains_seq(
        line,
        "(Heap Sizing) did not expand the heap"@,
    ) {
        HeapSizing::Unchanged
    } else if contains_seq(line, "(Heap Sizing) expand the heap"@) || contains_seq(
        line,
        "(Heap Sizing) attempt heap expansion"@,
    ) {
        HeapSizing::Expansion
    } else if contains_seq(line, "(Heap Sizing) shrink the heap"@) {
        HeapSizing::Shrinking
    } else {
        HeapSizing::Unchanged
    }
}

fn gc_resizing_chars(line: &Vec<char>) -> (r: HeapSizing)
    ensures
        r == spec_gc_resizing(line@),
{
    if contains_str(line, "calculated expansion amount: 0 bytes") || contains_str(
        line,
        "(Heap Sizing) did not expand the heap",
    ) {
        HeapSizing::Unchanged
    } else if contains_str(line, "(Heap Sizing) expand the heap") || contains_str(
        line,
        "(Heap Sizing) attempt heap expansion",
    ) {
        HeapSizing::Expansion
    } else if contains_str(line, "(Heap Sizing) shrink the heap") {
        HeapSizing::Shrinking
    } else {
        HeapSizing::Unchanged
    }
}

/// Reads the heap-resize signal of a record.
pub fn get_gc_resizing(line: &str) -> (r: HeapSizing)
    ensures
        r == spec_gc_resizing(line@),
{
    let chars = str_to_chars(line);
    gc_resizing_chars(&chars)
}

/// The state of the character scan over a pause line: bracket depth, the
/// kind token of the first bracket, the collected attributes, and the
/// seconds token, with `done` set once the scan has what it needs.
pub struct ScanState {
    pub done: bool,
    pub opens: int,
    pub closes: int,
    pub looking: bool,
    pub kind: Seq<char>,
    pub is_full: bool,
    pub in_attr: bool,
    pub attr: Seq<char>,
    pub attrs: Seq<Seq<char>>,
    pub in_secs: bool,
    pub secs: Seq<char>,
}

/// The scan state before any character is read.
pub open spec fn scan_init() -> ScanState {
    ScanState {
        done: false,
        opens: 0,
        closes: 0,
        looking: false,
        kind: Seq::empty(),
        is_full: false,
        in_attr: false,
        attr: Seq::empty(),
        attrs: Seq::empty(),
        in_secs: false,
        secs: Seq::empty(),
    }
}

/// Whether a finished attribute is kept: empty qualifiers are dropped, and
/// purely numeric qualifiers are dropped unless they mention G1, so the
/// attribute list never holds an empty string.
pub open spec fn attr_kept(a: Seq<char>) -> bool {
    a.len() > 0 && (!(exists|i: int| 0 <= i < a.len() && is_dec_digit(#[trigger] a[i]))
        || contains_seq(a, "G1"@))
}

/// One transition of the pause-line scan. Brackets track depth, with the
/// scan ending when the first bracket group closes; only characters at
/// depth one are read. The first token of the first bracket is the kind; a
/// space ends it, marking a full GC when it reads `Full`. Parentheses
/// delimit attributes, a comma starts the seconds token, and a space ends a
/// non-empty seconds token.
pub open spec fn scan_step(st: ScanState, c: char) -> ScanState {
    if st.done {
        st
    } else if c == '[' {
        ScanState {
            opens: st.opens + 1,
            looking: if st.kind.len() == 0 {
                true
            } else {
                st.looking
            },
            ..st
        }
    } else if c == ']' {
        if st.closes + 1 == st.opens {
            ScanState { closes: st.closes + 1, done: true, ..st }
        } else {
            ScanState { closes: st.closes + 1, ..st }
        }
    } else if st.opens - st.closes != 1 && st.opens > 0 {
        st
    } else if st.looking {
        if c == ' ' && st.kind.len() > 0 {
            ScanState { looking: false, is_full: st.kind == "Full"@, ..st }
        } else {
            ScanState { kind: st.kind.push(c), ..st }
        }
    } else if c == ',' {
        ScanState { in_secs: true, ..st }
    } else if c == '(' {
        ScanState { in_attr: true, ..st }
    } else if c == ')' {
        ScanState {
            in_attr: false,
            attr: Seq::empty(),
            attrs: if attr_kept(st.attr) {
                st.attrs.push(st.attr)
            } else {
                st.attrs
            },
            ..st
        }
    } else if st.in_attr {
        ScanState { attr: st.attr.push(c), ..st }
    } else if st.in_secs {
        if c == ' ' {
            if st.secs.len() > 0 {
                ScanState { done: true, ..st }
            } else {
                st
            }
        } else {
            ScanState { secs: st.secs.push(c), ..st }
        }
    } else {
        st
    }
}

/// The scan state after the first `n` characters of `s`.
pub open spec fn scan_prefix(s: Seq<char>, n: int) -> ScanState
    decreases n,
{
    if n <= 0 {
        scan_init()
    } else {
        scan_step(scan_prefix(s, n - 1), s[n - 1])
    }
}

/// The scan state after the whole of `s`.
pub open spec fn spec_scan(s: Seq<char>) -> ScanState {
    scan_prefix(s, s.len() as int)
}

/// Once the scan is done, later characters change nothing.
proof fn lemma_scan_done_stable(s: Seq<char>, n: int, m: int)
    requires
        0 <= n <= m <= s.len(),
        scan_prefix(s, n).done,
    ensures
        scan_prefix(s, m) == scan_prefix(s, n),
    decreases m - n,
{
    if n < m {
        lemma_scan_done_stable(s, n, m - 1);
    }
}

/// Whether any character of `a` is a decimal digit.
fn has_digit(a: &Vec<char>) -> (r: bool)
    ensures
        r == exists|i: int| 0 <= i < a@.len() && is_dec_digit(#[trigger] a@[i]),
{
    let mut i: usize = 0;
    while i < a.len()
        invariant
            i <= a@.len(),
            forall|j: int| 0 <= j < i ==> !is_dec_digit(#[trigger] a@[j]),
        decreases a.len() - i,
    {
        if crate::numfmt::is_digit(a[i]) {
            return true;
        }
        i += 1;
    }
    false
}

fn attr_kept_exec(a: &Vec<char>) -> (r: bool)
    ensures
        r == attr_kept(a@),
{
    a.len() > 0 && (!has_digit(a) || contains_str(a, "G1"))
}

/// The head of a pause line: the text before the first `": "`, taken as the
/// wall-clock prefix.
pub open spec fn spec_head(line: Seq<char>) -> Seq<char> {
    match first_sub_idx(line, ": "@) {
        None => line,
        Some(k) => line.take(k),
    }
}

/// The rest of a pause line, after the first `": "`.
pub open spec fn spec_rest(line: Seq<char>) -> Seq<char> {
    match first_sub_idx(line, ": "@) {
        None => Seq::empty(),
        Some(k) => line.skip(k + 2),
    }
}

/// The parse of the wall-clock prefix: the instant the `time` crate reads
/// from it, if it matches the fixed timestamp pattern.
pub uninterp spec fn epoch_of(s: Seq<char>) -> Option<i64>;

/// Relies on time's `format_description::parse` of the fixed pattern
/// `[year]-[month]-[day]T[hour]:[minute]:[second].[subsecond digits:3][offset_hour sign:mandatory][offset_minute]`,
/// `OffsetDateTime::parse`, and `unix_timestamp`: whether `s` matches the
/// pattern, and which instant it names, depend on `s` alone.
#[verifier::external_body]
fn parse_epoch(s: &str) -> (r: Option<i64>)
    ensures
        r == epoch_of(s@),
{
    let format = match time::format_description::parse(
        "[year]-[month]-[day]T[hour]:[minute]:[second].[subsecond digits:3][offset_hour sign:mandatory][offset_minute]",
    ) {
        Ok(f) => f,
        Err(_) => return None,
    };
    match time::OffsetDateTime::parse(s, &format) {
        Ok(d) => Some(d.unix_timestamp()),
        Err(_) => None,
    }
}

/// The epoch a pause line reports: the parsed wall-clock prefix, or zero
/// when the prefix is not a timestamp.
pub open spec fn spec_epoch_value(head: Seq<char>) -> int {
    match epoch_of(head) {
        Some(e) => e as int,
        None => 0,
    }
}

/// The pause type of a finished scan: `Full GC` for a full collection,
/// otherwise the first kept attribute; empty when no attribute was kept.
pub open spec fn spec_parsed_type(st: ScanState) -> Seq<char> {
    if st.attrs.len() > 0 {
        if st.is_full {
            "Full GC"@
        } else {
            st.attrs[0]
        }
    } else {
        Seq::empty()
    }
}

/// The attributes of a finished scan: all kept attributes, except that for
/// a non-full collection the first one is promoted to the pause type.
pub open spec fn spec_parsed_attrs(st: ScanState) -> Seq<Seq<char>> {
    if st.attrs.len() > 0 && !st.is_full {
        st.attrs.drop_first()
    } else {
        st.attrs
    }
}

/// The pause duration of a finished scan, in nanoseconds: the seconds
/// token's value, or zero when the token is absent, malformed, or too large
/// to represent.
pub open spec fn spec_parsed_nanos(st: ScanState) -> int {
    match spec_secs_nanos(st.secs) {
        Some(n) => if n <= u64::MAX {
            n
        } else {
            0
        },
        None => 0,
    }
}

/// Parses one complete pause line into a pause event. The wall-clock prefix
/// becomes the epoch (zero when absent or unreadable); the bracketed text
/// is scanned for the pause kind, its attributes and its duration; the
/// heap-resize signal is read from the text after the prefix.
pub fn parse_gc_pause(line: String) -> (r: GCPause)
    ensures
        ({
            let st = spec_scan(spec_rest(line@));
            &&& r.time_epoch as int == spec_epoch_value(spec_head(line@))
            &&& r.heap_sizing == spec_gc_resizing(spec_rest(line@))
            &&& r.is_full_gc == st.is_full
            &&& r.gc_type@ == spec_parsed_type(st)
            &&& r.attributes.deep_view() == spec_parsed_attrs(st)
            &&& r.pause_nanos as int == spec_parsed_nanos(st)
        }),
{
    let chars = str_to_chars(line.as_str());
    let sep = str_to_chars(": ");
    let (head, rest) = match find_first(&chars, &sep) {
        None => {
            let h = subrange_chars(&chars, 0, chars.len());
            assert(h@ =~= chars@);
            (h, Vec::<char>::new())
        },
        Some(k) => {
            proof {
                reveal_strlit(": ");
                crate::strutil::lemma_first_sub_in_range(chars@, sep@);
                assert(sep@.len() == 2);
            }
            let cl = chars.len();
            assert(k as int + 2 <= cl as int);
            let h = subrange_chars(&chars, 0, k);
            let t = subrange_chars(&chars, k + 2, cl);
            assert(h@ =~= chars@.take(k as int));
            assert(t@ =~= chars@.skip(k as int + 2));
            (h, t)
        },
    };
    assert(head@ == spec_head(line@));
    assert(rest@ == spec_rest(line@));
    let head_str = chars_to_string(&head);
    let time_epoch: i64 = match parse_epoch(head_str.as_str()) {
        Some(e) => e,
        None => 0,
    };
    let heap_sizing = gc_resizing_chars(&rest);
    // character scan of the bracketed text
    let ghost rv = rest@;
    let ghost gst = spec_scan(rv);
    let mut opens: usize = 0;
    let mut closes: usize = 0;
    let mut looking = false;
    let mut kind: Vec<char> = Vec::new();
    let mut is_full = false;
    let mut in_attr = false;
    let mut attr: Vec<char> = Vec::new();
    let mut attrs: Vec<Vec<char>> = Vec::new();
    let mut in_secs = false;
    let mut secs: Vec<char> = Vec::new();
    let mut i: usize = 0;
    assert(attrs.deep_view() =~~= Seq::<Seq<char>>::empty());
    while i < rest.len()
        invariant_except_break
            opens <= i,
            closes <= i,
            !scan_prefix(rv, i as int).done,
            scan_prefix(rv, i as int) == (ScanState {
                done: false,
                opens: opens as int,
                closes: closes as int,
                looking: looking,
                kind: kind@,
                is_full: is_full,
                in_attr: in_attr,
                attr: attr@,
                attrs: attrs.deep_view(),
                in_secs: in_secs,
                secs: secs@,
            }),
        invariant
            i <= rv.len(),
            rv == rest@,
            gst == spec_scan(rv),
        ensures
            is_full == gst.is_full,
            attrs.deep_view() == gst.attrs,
            secs@ == gst.secs,
        decreases rest.len() - i,
    {
        let ghost pre = scan_prefix(rv, i as int);
        let c = rest[i];
        assert(scan_prefix(rv, i as int + 1) == scan_step(pre, rv[i as int]));
        if c == '[' {
            opens += 1;
            if kind.len() == 0 {
                looking = true;
            }
        } else if c == ']' {
            closes += 1;
            if closes == opens {
                proof {
                    lemma_scan_done_stable(rv, i as int + 1, rv.len() as int);
                }
                break ;
            }
        } else if !(opens != closes + 1 && opens > 0) {
            if looking {
                if c == ' ' && kind.len() > 0 {
                    looking = false;
                    is_full = chars_eq_str(&kind, "Full");
                } else {
                    kind.push(c);
                }
            } else if c == ',' {
                in_secs = true;
            } else if c == '(' {
                in_attr = true;
            } else if c == ')' {
                in_attr = false;
                let ghost old_attrs = attrs.deep_view();
                if attr_kept_exec(&attr) {
                    let done_attr = attr;
                    attrs.push(done_attr);
                    assert(attrs.deep_view() =~~= old_attrs.push(pre.attr));
                } else {
                }
                attr = Vec::new();
            } else if in_attr {
                attr.push(c);
            } else if in_secs {
                if c == ' ' {
                    if secs.len() > 0 {
                        proof {
                            lemma_scan_done_stable(rv, i as int + 1, rv.len() as int);
                        }
                        break ;
                    }
                } else {
                    secs.push(c);
                }
            }
        }
        i += 1;
    }
    // assemble the event from the finished scan
    let pause_nanos: u64 = match parse_secs_nanos(&secs) {
        Some(n) => n,
        None => 0,
    };
    let mut gc_type: String = String::new();
    let mut attributes: Vec<String> = Vec::new();
    if attrs.len() > 0 {
        if is_full {
            gc_type = {
                let v = str_to_chars("Full GC");
                chars_to_string(&v)
            };
            let mut j: usize = 0;
            while j < attrs.len()
                invariant
                    j <= attrs@.len(),
                    attrs.deep_view() == gst.attrs,
                    attributes.deep_view() =~~= gst.attrs.take(j as int),
                decreases attrs.len() - j,
            {
                let ghost prev = attributes.deep_view();
                let a = chars_to_string(&attrs[j]);
                assert(a@ == gst.attrs[j as int]);
                attributes.push(a);
                assert(attributes.deep_view() =~~= prev.push(gst.attrs[j as int]));
                assert(gst.attrs.take(j as int + 1) =~= gst.attrs.take(j as int).push(
                    gst.attrs[j as int],
                ));
                j += 1;
            }
            assert(gst.attrs.take(attrs@.len() as int) =~= gst.attrs);
        } else {
            gc_type = chars_to_string(&attrs[0]);
            assert(gc_type@ == gst.attrs[0]);
            let mut j: usize = 1;
            while j < attrs.len()
                invariant
                    1 <= j <= attrs@.len(),
                    attrs.deep_view() == gst.attrs,
                    gst.attrs.len() >= 1,
                    attributes.deep_view() =~~= gst.attrs.subrange(1, j as int),
                decreases attrs.len() - j,
            {
                let ghost prev = attributes.deep_view();
                let a = chars_to_string(&attrs[j]);
                assert(a@ == gst.attrs[j as int]);
                attributes.push(a);
                assert(attributes.deep_view() =~~= prev.push(gst.attrs[j as int]));
                assert(gst.attrs.subrange(1, j as int + 1) =~= gst.attrs.subrange(
                    1,
                    j as int,
                ).push(gst.attrs[j as int]));
                j += 1;
            }
            assert(gst.attrs.subrange(1, attrs@.len() as int) =~= gst.attrs.drop_first());
        }
    } else {
        assert(attributes.deep_view() =~~= Seq::<Seq<char>>::empty());
        assert(gc_type@ =~= Seq::<char>::empty());
    }
    GCPause { is_full_gc: is_full, attributes, gc_type, pause_nanos, time_epoch, heap_sizing }
}


/// The index of the first line announcing a GC event, if any.
pub open spec fn first_gc_idx(lines: Seq<Seq<char>>) -> Option<int>
    decreases lines.len(),
{
    if lines.len() == 0 {
        None
    } else if spec_has_gc(lines[0]) {
        Some(0)
    } else {
        match first_gc_idx(lines.drop_first()) {
            Some(k) => Some(k + 1),
            None => None,
        }
    }
}

proof fn lemma_first_gc_at(lines: Seq<Seq<char>>, k: int)
    requires
        0 <= k < lines.len(),
        spec_has_gc(lines[k]),
        forall|j: int| 0 <= j < k ==> !spec_has_gc(#[trigger] lines[j]),
    ensures
        first_gc_idx(lines) == Some(k),
    decreases k,
{
    if k > 0 {
        lemma_first_gc_at(lines.drop_first(), k - 1);
    }
}

proof fn lemma_first_gc_none(lines: Seq<Seq<char>>)
    requires
        forall|j: int| 0 <= j < lines.len() ==> !spec_has_gc(#[trigger] lines[j]),
    ensures
        first_gc_idx(lines) is None,
    decreases lines.len(),
{
    if lines.len() > 0 {
        lemma_first_gc_none(lines.drop_first());
    }
}

fn find_gc_line(lines: &Vec<Vec<char>>) -> (r: Option<usize>)
    ensures
        match r {
            Some(i) => i < lines@.len() && first_gc_idx(lines.deep_view()) == Some(i as int),
            None => first_gc_idx(lines.deep_view()) is None,
        },
{
    let ghost dv = lines.deep_view();
    let mut i: usize = 0;
    while i < lines.len()
        invariant
            i <= dv.len(),
            dv == lines.deep_view(),
            forall|j: int| 0 <= j < i ==> !spec_has_gc(#[trigger] dv[j]),
        decreases lines.len() - i,
    {
        if has_gc_chars(&lines[i]) {
            proof {
                lemma_first_gc_at(dv, i as int);
            }
            return Some(i);
        }
        i += 1;
    }
    proof {
        lemma_first_gc_none(dv);
    }
    None
}

/// `attrs` with every `before full gc` marker removed, order kept.
pub open spec fn drop_before_full_gc(attrs: Seq<Seq<char>>) -> Seq<Seq<char>>
    decreases attrs.len(),
{
    if attrs.len() == 0 {
        Seq::empty()
    } else {
        let rest = drop_before_full_gc(attrs.drop_last());
        if attrs.last() == "before full gc"@ {
            rest
        } else {
            rest.push(attrs.last())
        }
    }
}

/// The scan over the lines of a reassembled record for the line carrying
/// the authoritative pause duration: bracket counts accumulate across
/// lines, counting is suspended inside a histogram block, and the first
/// line on which the counts balance and that ends in ` secs]` is the one.
pub open spec fn full_scan(
    lines: Seq<Seq<char>>,
    i: int,
    opens: int,
    closes: int,
    skip: bool,
) -> Option<Seq<char>>
    decreases lines.len() - i,
{
    if i < 0 || i >= lines.len() {
        None
    } else {
        let line = lines[i];
        if skip {
            full_scan(lines, i + 1, opens, closes, !starts_with_seq(trim_seq(line), "Total"@))
        } else {
            let o2 = opens + count_char(line, '[');
            let c2 = closes + count_char(line, ']');
            let sk2 = contains_seq(line, "Histogram"@);
            if o2 == c2 && ends_with_seq(line, " secs]"@) {
                Some(line)
            } else {
                full_scan(lines, i + 1, o2, c2, sk2)
            }
        }
    }
}

/// The duration token of the chosen line: the last comma-separated piece
/// of the last non-empty segment before ` secs]`, trimmed.
pub open spec fn spec_secs_token(line: Seq<char>) -> Option<Seq<char>> {
    match last_nonempty(spec_split_on(line, " secs]"@)) {
        None => None,
        Some(part) => Some(trim_seq(spec_split_on(part, ", "@).last())),
    }
}

proof fn lemma_split_on_nonempty(s: Seq<char>, sep: Seq<char>)
    ensures
        spec_split_on(s, sep).len() >= 1,
    decreases s.len(),
{
}

/// The line of a reassembled record that carries its pause duration.
pub open spec fn spec_full_secs_line(m: Seq<char>) -> Option<Seq<char>> {
    full_scan(spec_split(m, '\n'), 0, 0, 0, false)
}

/// The pause duration of the reassembled record, in nanoseconds: zero when
/// no line carries one, and zero again when the carrying line's token is
/// unreadable or too large to represent, a local failure that does not
/// stop the analysis.
pub open spec fn spec_full_gc_nanos(m: Seq<char>) -> int {
    match spec_full_secs_line(m) {
        None => 0,
        Some(line) => match spec_secs_token(line) {
            None => 0,
            Some(tok) => match spec_secs_nanos(tok) {
                Some(n) => if n <= u64::MAX {
                    n
                } else {
                    0
                },
                None => 0,
            },
        },
    }
}

/// The line of the record that the base event is parsed from: the first
/// line announcing a GC, or the first line when none does.
pub open spec fn spec_full_base_line(m: Seq<char>) -> Seq<char> {
    let lines = spec_split(m, '\n');
    match first_gc_idx(lines) {
        Some(k) => lines[k],
        None => lines[0],
    }
}

/// Parses a reassembled multi-line record into a pause event. The base
/// event comes from the record's first GC line; the `before full gc`
/// marker is dropped from its attributes; the duration is re-read from the
/// first balanced line ending in ` secs]`, whose last comma-separated
/// token is authoritative, defaulting to zero when that token is
/// unreadable; whether the pause is a full GC is decided by the record
/// mentioning `Full GC`.
pub fn parse_full_gc_pause(multiline: String) -> (r: GCPause)
    ensures
        ({
            let st = spec_scan(spec_rest(spec_full_base_line(multiline@)));
            &&& r.gc_type@ == spec_parsed_type(st)
            &&& r.attributes.deep_view() == drop_before_full_gc(spec_parsed_attrs(st))
            &&& r.pause_nanos as int == spec_full_gc_nanos(multiline@)
            &&& r.time_epoch as int == spec_epoch_value(
                spec_head(spec_full_base_line(multiline@)),
            )
            &&& r.is_full_gc == contains_seq(multiline@, "Full GC"@)
            &&& r.heap_sizing == spec_gc_resizing(multiline@)
        }),
{
    let chars = str_to_chars(multiline.as_str());
    let lines = split_char(&chars, '\n');
    let ghost ldv = lines.deep_view();
    proof {
        crate::strutil::lemma_split_nonempty(chars@, '\n');
        assert(ldv == spec_split(multiline@, '\n'));
    }
    assert(lines@.len() >= 1);
    let base_idx: usize = match find_gc_line(&lines) {
        Some(i) => i,
        None => 0,
    };
    let base_line = chars_to_string(&lines[base_idx]);
    assert(base_line@ == spec_full_base_line(multiline@));
    let base = parse_gc_pause(base_line);
    // drop the before-full-gc marker from the attributes
    let ghost base_attrs = base.attributes.deep_view();
    let mut attributes: Vec<String> = Vec::new();
    let mut j: usize = 0;
    assert(attributes.deep_view() =~~= Seq::<Seq<char>>::empty());
    assert(base_attrs.take(0) =~= Seq::<Seq<char>>::empty());
    while j < base.attributes.len()
        invariant
            j <= base_attrs.len(),
            base_attrs == base.attributes.deep_view(),
            attributes.deep_view() == drop_before_full_gc(base_attrs.take(j as int)),
        decreases base.attributes.len() - j,
    {
        let ghost prev = attributes.deep_view();
        assert(base_attrs.take(j as int + 1).drop_last() =~= base_attrs.take(j as int));
        assert(base_attrs.take(j as int + 1).last() == base_attrs[j as int]);
        let ac = str_to_chars(base.attributes[j].as_str());
        assert(ac@ == base_attrs[j as int]);
        if !chars_eq_str(&ac, "before full gc") {
            let a = chars_to_string(&ac);
            attributes.push(a);
            assert(attributes.deep_view() =~~= prev.push(base_attrs[j as int]));
        }
        j += 1;
    }
    assert(base_attrs.take(base_attrs.len() as int) =~= base_attrs);
    let heap_sizing = gc_resizing_chars(&chars);
    let is_full_gc = contains_str(&chars, "Full GC");
    // find the line carrying the authoritative duration
    let mut opens: usize = 0;
    let mut closes: usize = 0;
    let mut skip = false;
    let mut i: usize = 0;
    let mut found: Option<Vec<char>> = None;
    let total = chars.len();
    proof {
        crate::strutil::lemma_split_sum_le(chars@, '\n');
        assert(ldv.take(0) =~= Seq::<Seq<char>>::empty());
    }
    while i < lines.len()
        invariant_except_break
            found is None,
            opens + closes <= crate::strutil::sum_lens(ldv.take(i as int)),
            full_scan(ldv, 0, 0, 0, false) == full_scan(
                ldv,
                i as int,
                opens as int,
                closes as int,
                skip,
            ),
        invariant
            i <= ldv.len(),
            ldv == lines.deep_view(),
            crate::strutil::sum_lens(ldv) <= total as int,
        ensures
            match found {
                Some(l) => full_scan(ldv, 0, 0, 0, false) == Some(l@),
                None => full_scan(ldv, 0, 0, 0, false) is None,
            },
        decreases lines.len() - i,
    {
        let ghost go = opens as int;
        let ghost gc = closes as int;
        let ghost gs = skip;
        let line = &lines[i];
        assert(line@ == ldv[i as int]);
        proof {
            crate::strutil::lemma_sum_lens_take_step(ldv, i as int);
            crate::strutil::lemma_sum_lens_take_le(ldv, i as int + 1);
            crate::strutil::lemma_count_two_le_len(line@, '[', ']');
        }
        if skip {
            let trimmed = trim_chars(line);
            skip = !starts_with_str(&trimmed, "Total");
        } else {
            let co = count_char_exec(line, '[');
            let cc = count_char_exec(line, ']');
            opens += co;
            closes += cc;
            skip = contains_str(line, "Histogram");
            if opens == closes && ends_with_str(line, " secs]") {
                let l = subrange_chars(line, 0, line.len());
                assert(l@ =~= ldv[i as int]);
                assert(full_scan(ldv, i as int, go, gc, gs) == Some(ldv[i as int]));
                found = Some(l);
                break ;
            }
        }
        i += 1;
    }
    let pause_nanos: u64 = match found {
        None => 0,
        Some(line) => {
            let secs_sep = str_to_chars(" secs]");
            proof {
                reveal_strlit(" secs]");
            }
            let parts = split_on(&line, &secs_sep);
            match last_nonempty_exec(&parts) {
                None => 0,
                Some(part) => {
                    let comma_sep = str_to_chars(", ");
                    proof {
                        reveal_strlit(", ");
                    }
                    let sub = split_on(&part, &comma_sep);
                    proof {
                        lemma_split_on_nonempty(part@, ", "@);
                    }
                    let last = &sub[sub.len() - 1];
                    assert(last@ == spec_split_on(part@, ", "@).last());
                    let tok = trim_chars(last);
                    match parse_secs_nanos(&tok) {
                        Some(n) => n,
                        None => 0,
                    }
                },
            }
        },
    };
    GCPause {
        is_full_gc,
        attributes,
        gc_type: base.gc_type,
        pause_nanos,
        time_epoch: base.time_epoch,
        heap_sizing,
    }
}


/// An attribute wrapped in parentheses for display.
pub open spec fn spec_wrap_paren(a: Seq<char>) -> Seq<char> {
    "("@ + a + ")"@
}

/// Every attribute wrapped in parentheses.
pub open spec fn wrap_all(attrs: Seq<Seq<char>>) -> Seq<Seq<char>> {
    attrs.map_values(|a: Seq<char>| spec_wrap_paren(a))
}

/// The concatenation of all segments of `ss`, in order.
pub open spec fn concat_all(ss: Seq<Seq<char>>) -> Seq<char>
    decreases ss.len(),
{
    if ss.len() == 0 {
        Seq::empty()
    } else {
        ss[0] + concat_all(ss.drop_first())
    }
}

proof fn lemma_concat_all_push(ss: Seq<Seq<char>>, x: Seq<char>)
    ensures
        concat_all(ss.push(x)) == concat_all(ss) + x,
    decreases ss.len(),
{
    if ss.len() == 0 {
        assert(ss.push(x)[0] == x);
        assert(ss.push(x).drop_first() =~= Seq::<Seq<char>>::empty());
        assert(concat_all(Seq::<Seq<char>>::empty()) == Seq::<char>::empty());
        assert(x + Seq::<char>::empty() =~= x);
        assert(Seq::<char>::empty() + x =~= x);
        assert(concat_all(ss.push(x)) =~= concat_all(ss) + x);
    } else {
        assert(ss.push(x).drop_first() =~= ss.drop_first().push(x));
        lemma_concat_all_push(ss.drop_first(), x);
        assert(ss.push(x)[0] == ss[0]);
        assert(ss[0] + (concat_all(ss.drop_first()) + x) =~= (ss[0] + concat_all(
            ss.drop_first(),
        )) + x);
    }
}

/// The display name of a pause's group: its type, followed, when it has
/// attributes, by the attributes each in parentheses, sorted and joined.
pub open spec fn spec_gc_name(gc_type: Seq<char>, attrs: Seq<Seq<char>>) -> Seq<char> {
    if attrs.len() == 0 {
        gc_type
    } else {
        gc_type + " - "@ + concat_all(wrap_all(attrs).sort_by(lex_leq_fn()))
    }
}

/// Builds the display name that groups equivalent pauses together.
pub fn generate_gc_name(pause: &GCPause) -> (r: String)
    ensures
        r@ == spec_gc_name(pause.gc_type@, pause.attributes.deep_view()),
{
    let ghost adv = pause.attributes.deep_view();
    if pause.attributes.len() == 0 {
        return str_to_string(pause.gc_type.as_str());
    }
    let mut wrapped: Vec<Vec<char>> = Vec::new();
    let mut i: usize = 0;
    assert(wrapped.deep_view() =~~= wrap_all(adv).take(0));
    while i < pause.attributes.len()
        invariant
            i <= adv.len(),
            adv == pause.attributes.deep_view(),
            wrapped.deep_view() =~~= wrap_all(adv).take(i as int),
        decreases pause.attributes.len() - i,
    {
        let ghost prev = wrapped.deep_view();
        let mut w: Vec<char> = Vec::new();
        w.push('(');
        push_str_chars(&mut w, pause.attributes[i].as_str());
        w.push(')');
        proof {
            reveal_strlit("(");
            reveal_strlit(")");
            assert(w@ =~= spec_wrap_paren(adv[i as int]));
        }
        wrapped.push(w);
        proof {
            assert(wrapped.deep_view() =~~= prev.push(spec_wrap_paren(adv[i as int])));
            assert(wrap_all(adv).take(i as int + 1) =~= wrap_all(adv).take(i as int).push(
                wrap_all(adv)[i as int],
            ));
        }
        i += 1;
    }
    assert(wrap_all(adv).take(adv.len() as int) =~= wrap_all(adv));
    let sorted = sort_chars_vecs(wrapped);
    let ghost sdv = sorted.deep_view();
    let mut out: Vec<char> = Vec::new();
    push_str_chars(&mut out, pause.gc_type.as_str());
    push_str_chars(&mut out, " - ");
    let mut j: usize = 0;
    assert(concat_all(sdv.take(0)) =~= Seq::<char>::empty());
    assert(out@ =~= pause.gc_type@ + " - "@ + concat_all(sdv.take(0)));
    while j < sorted.len()
        invariant
            j <= sdv.len(),
            sdv == sorted.deep_view(),
            out@ == pause.gc_type@ + " - "@ + concat_all(sdv.take(j as int)),
        decreases sorted.len() - j,
    {
        push_chars(&mut out, &sorted[j]);
        proof {
            assert(sdv.take(j as int + 1) =~= sdv.take(j as int).push(sdv[j as int]));
            lemma_concat_all_push(sdv.take(j as int), sdv[j as int]);
            assert((pause.gc_type@ + " - "@ + concat_all(sdv.take(j as int))) + sdv[j as int]
                =~= pause.gc_type@ + " - "@ + (concat_all(sdv.take(j as int)) + sdv[j as int]));
        }
        j += 1;
    }
    assert(sdv.take(sdv.len() as int) =~= sdv);
    chars_to_string(&out)
}

proof fn lemma_wrap_multiset(a1: Seq<Seq<char>>, a2: Seq<Seq<char>>)
    requires
        a1.to_multiset() == a2.to_multiset(),
    ensures
        wrap_all(a1).to_multiset() == wrap_all(a2).to_multiset(),
    decreases a1.len(),
{
    broadcast use vstd::seq_lib::group_to_multiset_ensures;
    broadcast use vstd::multiset::group_multiset_axioms;

    if a1.len() == 0 {
        assert(a1.len() == a1.to_multiset().len());
        assert(a2.len() == a2.to_multiset().len());
        assert(a2.len() == 0);
        assert(wrap_all(a1) =~= Seq::<Seq<char>>::empty());
        assert(wrap_all(a2) =~= Seq::<Seq<char>>::empty());
        assert(wrap_all(a1).to_multiset() =~= wrap_all(a2).to_multiset());
    } else {
        let x = a1.last();
        assert(a1.contains(x));
        assert(a1.to_multiset().count(x) > 0);
        assert(a2.to_multiset().count(x) > 0);
        assert(a2.contains(x));
        let i = choose|i: int| 0 <= i < a2.len() && a2[i] == x;
        let a1p = a1.drop_last();
        let a2p = a2.remove(i);
        assert(a1p =~= a1.remove(a1.len() - 1));
        assert(a1p.to_multiset() == a1.to_multiset().remove(x)) by {
            assert(a1.remove(a1.len() - 1).to_multiset() == a1.to_multiset().remove(
                a1[a1.len() - 1],
            ));
        }
        assert(a2p.to_multiset() == a2.to_multiset().remove(x));
        lemma_wrap_multiset(a1p, a2p);
        let w = spec_wrap_paren(x);
        assert(wrap_all(a1) =~= wrap_all(a1p).push(w));
        assert(wrap_all(a1).to_multiset() == wrap_all(a1p).to_multiset().insert(w));
        assert(wrap_all(a2).remove(i) =~= wrap_all(a2p));
        assert(wrap_all(a2).remove(i).to_multiset() == wrap_all(a2).to_multiset().remove(
            wrap_all(a2)[i],
        ));
        assert(wrap_all(a2)[i] == w);
        assert(wrap_all(a2).contains(w)) by {
            assert(wrap_all(a2)[i] == w);
        }
        assert(wrap_all(a2).to_multiset().count(w) > 0);
        assert(wrap_all(a1).to_multiset() =~= wrap_all(a2).to_multiset()) by {
            let m1 = wrap_all(a1).to_multiset();
            let m2 = wrap_all(a2).to_multiset();
            assert(m1.remove(w) == m2.remove(w));
            assert forall|y: Seq<char>| m1.count(y) == m2.count(y) by {
                if y == w {
                    assert(m1.count(w) == m1.remove(w).count(w) + 1);
                    assert(m2.count(w) == m2.remove(w).count(w) + 1);
                } else {
                    assert(m1.remove(w).count(y) == m1.count(y));
                    assert(m2.remove(w).count(y) == m2.count(y));
                }
            }
        }
    }
}

/// The group name does not depend on the order in which a pause's
/// attributes were listed: two pauses of one type whose attribute lists
/// are permutations of each other are shown under one name.
pub proof fn lemma_gc_name_attr_order(t: Seq<char>, a1: Seq<Seq<char>>, a2: Seq<Seq<char>>)
    requires
        a1.to_multiset() == a2.to_multiset(),
    ensures
        spec_gc_name(t, a1) == spec_gc_name(t, a2),
{
    broadcast use vstd::seq_lib::group_to_multiset_ensures;

    assert(a1.len() == a1.to_multiset().len());
    assert(a2.len() == a2.to_multiset().len());
    if a1.len() == 0 {
    } else {
        lemma_wrap_multiset(a1, a2);
        crate::order::lemma_lex_total_ordering();
        wrap_all(a1).lemma_sort_by_ensures(lex_leq_fn());
        wrap_all(a2).lemma_sort_by_ensures(lex_leq_fn());
        vstd::seq_lib::lemma_sorted_unique(
            wrap_all(a1).sort_by(lex_leq_fn()),
            wrap_all(a2).sort_by(lex_leq_fn()),
            lex_leq_fn(),
        );
        assert(wrap_all(a1).sort_by(lex_leq_fn()) == wrap_all(a2).sort_by(lex_leq_fn()));
    }
}

/// The index of the pause shown as the worst: scanning in order, a pause
/// strictly longer than every one before it (and longer than zero) takes
/// over.
pub open spec fn max_scan(ps: Seq<GCPause>, i: int, best: Option<int>) -> Option<int>
    decreases ps.len() - i,
{
    if i < 0 || i >= ps.len() {
        best
    } else {
        let bv: int = match best {
            Some(j) => ps[j].pause_nanos as int,
            None => 0,
        };
        if ps[i].pause_nanos > bv {
            max_scan(ps, i + 1, Some(i))
        } else {
            max_scan(ps, i + 1, best)
        }
    }
}

/// The index of the longest pause, when any pause is longer than zero.
pub open spec fn spec_max_pause_idx(ps: Seq<GCPause>) -> Option<int> {
    max_scan(ps, 0, None)
}

/// The epoch in milliseconds, saturating at the representable bounds.
pub open spec fn sat_mul_1000(e: int) -> int {
    if e > 9223372036854775 {
        i64::MAX as int
    } else if e < -9223372036854775 {
        i64::MIN as int
    } else {
        e * 1000
    }
}

/// The worst-pause block of the report: the longest pause's timestamp,
/// duration and kind, or `No Pauses` when no pause had a positive duration.
pub open spec fn spec_max_pause_block(ps: Seq<GCPause>) -> Seq<char> {
    match spec_max_pause_idx(ps) {
        None => "No Pauses"@,
        Some(j) => "Timestamp: "@ + spec_human_time(sat_mul_1000(ps[j].time_epoch as int))
            + "\nPause Time "@ + spec_human_duration(ps[j].pause_nanos as int / 1000000)
            + "\nPause Type "@ + ps[j].gc_type@,
    }
}

/// Shows the single worst pause: its timestamp, its duration and its kind,
/// or `No Pauses` when no pause with a positive duration was seen.
pub fn show_max_pause_times(pauses: &Vec<GCPause>) -> (r: String)
    ensures
        r@ == spec_max_pause_block(pauses@),
{
    let ghost ps = pauses@;
    let mut best: Option<usize> = None;
    let mut best_nanos: u64 = 0;
    let mut i: usize = 0;
    while i < pauses.len()
        invariant
            i <= ps.len(),
            ps == pauses@,
            match best {
                Some(j) => j < i && best_nanos == ps[j as int].pause_nanos && best_nanos > 0,
                None => best_nanos == 0,
            },
            spec_max_pause_idx(ps) == max_scan(
                ps,
                i as int,
                match best {
                    Some(j) => Some(j as int),
                    None => None,
                },
            ),
        decreases pauses.len() - i,
    {
        if pauses[i].pause_nanos > best_nanos {
            best = Some(i);
            best_nanos = pauses[i].pause_nanos;
        }
        i += 1;
    }
    match best {
        None => str_to_string("No Pauses"),
        Some(j) => {
            let p = &pauses[j];
            let e = p.time_epoch;
            let ms: i64 = if e > 9223372036854775 {
                i64::MAX
            } else if e < -9223372036854775 {
                i64::MIN
            } else {
                e * 1000
            };
            let ts = human_time(ms);
            let dur = human_duration((p.pause_nanos / 1000000) as i64);
            let mut out: Vec<char> = Vec::new();
            push_str_chars(&mut out, "Timestamp: ");
            push_str_chars(&mut out, ts.as_str());
            push_str_chars(&mut out, "\nPause Time ");
            push_str_chars(&mut out, dur.as_str());
            push_str_chars(&mut out, "\nPause Type ");
            push_str_chars(&mut out, p.gc_type.as_str());
            assert(out@ =~= "Timestamp: "@ + spec_human_time(sat_mul_1000(ps[j as int].time_epoch as int))
                + "\nPause Time "@ + spec_human_duration(ps[j as int].pause_nanos as int / 1000000)
                + "\nPause Type "@ + ps[j as int].gc_type@);
            chars_to_string(&out)
        },
    }
}

} // verus!
