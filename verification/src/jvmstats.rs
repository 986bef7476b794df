//! The one-off header lines of a GC log: the JDK banner and the physical
//! memory line.
use vstd::prelude::*;
use crate::human::{human_bytes_base_1k, spec_human_bytes_base_1k};
use crate::numfmt::{all_digits, dec_value, parse_u64};
use crate::strutil::{chars_to_string, push_str_chars, spec_split, split_char, str_to_chars};

verus! {

/// The machine's physical memory: the byte count and its display line.
pub struct MemoryStats {
    pub physical_memory_str: String,
    pub physical_memory_bytes: i64,
}

/// The digits of the physical-memory token of a `Memory:` line: the fifth
/// whitespace-separated token, cut before any `(`, with trailing `k`s
/// removed.
pub open spec fn spec_memory_kilobytes(line: Seq<char>) -> Option<Seq<char>> {
    let toks = spec_split(line, ' ');
    if toks.len() <= 4 {
        None
    } else {
        Some(trim_trailing_k(spec_split(toks[4], '(')[0]))
    }
}

/// `s` with every trailing `k` removed.
pub open spec fn trim_trailing_k(s: Seq<char>) -> Seq<char>
    decreases s.len(),
{
    if s.len() > 0 && s[s.len() - 1] == 'k' {
        trim_trailing_k(s.drop_last())
    } else {
        s
    }
}

/// Whether the `Memory:` line `line` yields a physical-memory reading: its
/// kilobyte token must be a plain decimal whose byte count fits an `i64`.
pub open spec fn spec_memory_ok(line: Seq<char>) -> bool {
    match spec_memory_kilobytes(line) {
        None => false,
        Some(kd) => kd.len() > 0 && all_digits(kd) && dec_value(kd) * 1000 <= i64::MAX,
    }
}

/// The byte count that the `Memory:` line `line` reports.
pub open spec fn spec_memory_bytes(line: Seq<char>) -> int {
    dec_value(spec_memory_kilobytes(line)->0) * 1000
}

/// Parses the `Memory:` header line into the physical memory size and its
/// display line. Returns `None` when the line does not carry a readable
/// kilobyte count.
pub fn parse_memory(line: String) -> (r: Option<MemoryStats>)
    ensures
        r is Some <==> spec_memory_ok(line@),
        r is Some ==> r->0.physical_memory_bytes as int == spec_memory_bytes(line@),
        r is Some ==> r->0.physical_memory_str@ == "Total System RAM:    "@
            + spec_human_bytes_base_1k(spec_memory_bytes(line@)),
{
    let chars = str_to_chars(line.as_str());
    let toks = split_char(&chars, ' ');
    if toks.len() <= 4 {
        return None;
    }
    let physical_raw = &toks[4];
    assert(physical_raw@ =~= toks.deep_view()[4]);
    let ram_toks = split_char(physical_raw, '(');
    assert(ram_toks.deep_view().len() > 0) by {
        crate::strutil::lemma_split_nonempty(physical_raw@, '(');
    }
    let head = &ram_toks[0];
    assert(head@ =~= ram_toks.deep_view()[0]);
    // strip trailing `k`s
    let mut end: usize = head.len();
    assert(head@.take(end as int) =~= head@);
    while end > 0 && head[end - 1] == 'k'
        invariant
            end <= head@.len(),
            trim_trailing_k(head@) == trim_trailing_k(head@.take(end as int)),
        decreases end,
    {
        assert(head@.take(end as int).drop_last() =~= head@.take(end as int - 1));
        end -= 1;
    }
    let kd = crate::strutil::subrange_chars(head, 0, end);
    assert(kd@ == trim_trailing_k(head@)) by {
        assert(kd@ =~= head@.take(end as int));
    }
    match parse_u64(&kd) {
        None => {
            proof {
                if kd@.len() > 0 && all_digits(kd@) {
                    crate::numfmt::lemma_dec_value_nonneg(kd@);
                }
            }
            None
        },
        Some(k) => {
            if k > (i64::MAX as u64) / 1000 {
                proof {
                    vstd::arithmetic::div_mod::lemma_fundamental_div_mod(i64::MAX as int, 1000);
                }
                return None;
            }
            proof {
                vstd::arithmetic::div_mod::lemma_fundamental_div_mod(i64::MAX as int, 1000);
            }
            let bytes: i64 = (k * 1000) as i64;
            let mut out: Vec<char> = Vec::new();
            push_str_chars(&mut out, "Total System RAM:    ");
            let human = human_bytes_base_1k(bytes);
            push_str_chars(&mut out, human.as_str());
            Some(
                MemoryStats {
                    physical_memory_str: chars_to_string(&out),
                    physical_memory_bytes: bytes,
                },
            )
        },
    }
}

/// Passes the JDK banner line through unchanged.
pub fn parse_jdk_stats(line: String) -> (r: String)
    ensures
        r@ == line@,
{
    line
}

} // verus!
