//! Character-sequence utilities: conversion between `str` and `Vec<char>`,
//! substring search, prefix/suffix tests, line splitting, and trimming.
use vstd::prelude::*;
use vstd::std_specs::iter::IteratorSpec;

verus! {

/// `n` occurs in `h` starting at position `i`.
pub open spec fn matches_at(h: Seq<char>, n: Seq<char>, i: int) -> bool {
    &&& 0 <= i
    &&& i + n.len() <= h.len()
    &&& forall|j: int| 0 <= j < n.len() ==> h[i + j] == n[j]
}

/// `n` occurs somewhere in `h`.
pub open spec fn contains_seq(h: Seq<char>, n: Seq<char>) -> bool {
    exists|i: int| matches_at(h, n, i)
}

/// `h` begins with `n`.
pub open spec fn starts_with_seq(h: Seq<char>, n: Seq<char>) -> bool {
    matches_at(h, n, 0)
}

/// `h` ends with `n`.
pub open spec fn ends_with_seq(h: Seq<char>, n: Seq<char>) -> bool {
    matches_at(h, n, h.len() - n.len())
}

/// A vector of characters views the same sequence deeply and shallowly.
pub broadcast proof fn lemma_chars_deep_view(v: Vec<char>)
    ensures
        #[trigger] v.deep_view() == v@,
{
    assert(v.deep_view() =~= v@);
}

/// Collects the characters of a string slice into a vector.
pub fn str_to_chars(s: &str) -> (r: Vec<char>)
    ensures
        r@ == s@,
{
    broadcast use vstd::string::group_string_axioms;

    let mut it = s.chars();
    let mut r: Vec<char> = Vec::new();
    loop
        invariant
            r@ + it.remaining() == s@,
            it.decrease() is Some,
        ensures
            r@ == s@,
        decreases it.decrease()->0,
    {
        let ghost prev = r@;
        match it.next() {
            Some(c) => {
                r.push(c);
            },
            None => {
                proof {
                    assert(it.remaining().len() == 0);
                    assert(prev + it.remaining() =~= prev);
                }
                break ;
            },
        }
    }
    r
}

/// Relies on `String: FromIterator<char>`: collecting an iterator of
/// characters yields the string made of exactly those characters, in order.
#[verifier::external_body]
pub(crate) fn chars_to_string(v: &Vec<char>) -> (s: String)
    ensures
        s@ == v@,
{
    v.iter().collect()
}

/// Element-wise equality of two character vectors.
pub fn chars_eq(a: &Vec<char>, b: &Vec<char>) -> (r: bool)
    ensures
        r == (a@ == b@),
{
    if a.len() != b.len() {
        assert(a@ != b@);
        return false;
    }
    let mut i: usize = 0;
    while i < a.len()
        invariant
            i <= a.len(),
            a.len() == b.len(),
            forall|j: int| 0 <= j < i ==> a@[j] == b@[j],
        decreases a.len() - i,
    {
        if a[i] != b[i] {
            return false;
        }
        i += 1;
    }
    assert(a@ =~= b@);
    true
}

/// Whether `n` occurs in `h` at position `i`; `i` must leave room for `n`.
fn match_at(h: &Vec<char>, n: &Vec<char>, i: usize) -> (r: bool)
    requires
        i + n@.len() <= h@.len(),
    ensures
        r == matches_at(h@, n@, i as int),
{
    let nlen = n.len();
    let hlen = h.len();
    let mut j: usize = 0;
    while j < nlen
        invariant
            j <= nlen,
            nlen == n@.len(),
            hlen == h@.len(),
            i + nlen <= hlen,
            forall|k: int| 0 <= k < j ==> h@[i + k] == n@[k],
        decreases nlen - j,
    {
        if h[i + j] != n[j] {
            return false;
        }
        j += 1;
    }
    true
}

/// Position of the first occurrence of `n` in `h`, if any.
pub fn find_sub(h: &Vec<char>, n: &Vec<char>) -> (r: Option<usize>)
    ensures
        match r {
            Some(i) => matches_at(h@, n@, i as int) && forall|k: int|
                0 <= k < i ==> !matches_at(h@, n@, k),
            None => forall|k: int| !matches_at(h@, n@, k),
        },
{
    if n.len() > h.len() {
        return None;
    }
    if n.len() == 0 {
        assert(matches_at(h@, n@, 0));
        return Some(0);
    }
    let last: usize = h.len() - n.len();
    let mut i: usize = 0;
    while i <= last
        invariant
            n@.len() <= h@.len(),
            last == h@.len() - n@.len(),
            last < usize::MAX,
            forall|k: int| 0 <= k < i ==> !matches_at(h@, n@, k),
        decreases last + 1 - i,
    {
        if match_at(h, n, i) {
            return Some(i);
        }
        i += 1;
    }
    None
}

/// Whether `n` occurs anywhere in `h`.
pub fn contains_sub(h: &Vec<char>, n: &Vec<char>) -> (r: bool)
    ensures
        r == contains_seq(h@, n@),
{
    match find_sub(h, n) {
        Some(i) => {
            assert(matches_at(h@, n@, i as int));
            true
        },
        None => false,
    }
}

/// Whether the characters of `h` contain the literal `n`.
pub fn contains_str(h: &Vec<char>, n: &str) -> (r: bool)
    ensures
        r == contains_seq(h@, n@),
{
    let nv = str_to_chars(n);
    contains_sub(h, &nv)
}

/// Whether `h` begins with `n`.
pub fn starts_with(h: &Vec<char>, n: &Vec<char>) -> (r: bool)
    ensures
        r == starts_with_seq(h@, n@),
{
    if n.len() > h.len() {
        return false;
    }
    match_at(h, n, 0)
}

/// Whether the characters of `h` begin with the literal `n`.
pub fn starts_with_str(h: &Vec<char>, n: &str) -> (r: bool)
    ensures
        r == starts_with_seq(h@, n@),
{
    let nv = str_to_chars(n);
    starts_with(h, &nv)
}

/// Whether `h` ends with `n`.
pub fn ends_with(h: &Vec<char>, n: &Vec<char>) -> (r: bool)
    ensures
        r == ends_with_seq(h@, n@),
{
    if n.len() > h.len() {
        return false;
    }
    match_at(h, n, h.len() - n.len())
}

/// Whether the characters of `h` end with the literal `n`.
pub fn ends_with_str(h: &Vec<char>, n: &str) -> (r: bool)
    ensures
        r == ends_with_seq(h@, n@),
{
    let nv = str_to_chars(n);
    ends_with(h, &nv)
}

/// Copies `v[from..to]` into a fresh vector.
pub fn subrange_chars(v: &Vec<char>, from: usize, to: usize) -> (r: Vec<char>)
    requires
        from <= to <= v@.len(),
    ensures
        r@ == v@.subrange(from as int, to as int),
{
    let mut r: Vec<char> = Vec::new();
    let mut i: usize = from;
    while i < to
        invariant
            from <= i <= to <= v@.len(),
            r@ == v@.subrange(from as int, i as int),
        decreases to - i,
    {
        r.push(v[i]);
        assert(r@ =~= v@.subrange(from as int, i as int + 1));
        i += 1;
    }
    r
}

/// Splitting `s` on the separator `sep`, accumulator form: `cur` is the
/// segment being read, `out` the finished segments.
pub open spec fn split_acc(s: Seq<char>, sep: char, cur: Seq<char>, out: Seq<Seq<char>>) -> Seq<
    Seq<char>,
>
    decreases s.len(),
{
    if s.len() == 0 {
        out.push(cur)
    } else if s[0] == sep {
        split_acc(s.drop_first(), sep, Seq::empty(), out.push(cur))
    } else {
        split_acc(s.drop_first(), sep, cur.push(s[0]), out)
    }
}

/// The segments of `s` between occurrences of `sep`, as `str::split(sep)`
/// yields them: an empty input gives one empty segment, a trailing separator
/// a trailing empty segment.
pub open spec fn spec_split(s: Seq<char>, sep: char) -> Seq<Seq<char>> {
    split_acc(s, sep, Seq::empty(), Seq::empty())
}

/// Splits `v` on occurrences of `sep`.
pub fn split_char(v: &Vec<char>, sep: char) -> (r: Vec<Vec<char>>)
    ensures
        r.deep_view() == spec_split(v@, sep),
{
    let mut out: Vec<Vec<char>> = Vec::new();
    let mut cur: Vec<char> = Vec::new();
    let mut i: usize = 0;
    assert(v@.skip(0) =~= v@);
    assert(out.deep_view() =~~= Seq::<Seq<char>>::empty());
    while i < v.len()
        invariant
            i <= v@.len(),
            split_acc(v@.skip(i as int), sep, cur@, out.deep_view()) == spec_split(v@, sep),
        decreases v.len() - i,
    {
        let ghost pre = v@.skip(i as int);
        assert(pre[0] == v@[i as int]);
        assert(pre.drop_first() =~= v@.skip(i as int + 1));
        let c = v[i];
        if c == sep {
            let done = cur;
            cur = Vec::new();
            let ghost old_out = out.deep_view();
            out.push(done);
            assert(out.deep_view() =~~= old_out.push(done@));
        } else {
            cur.push(c);
        }
        i += 1;
    }
    assert(v@.skip(v@.len() as int) =~= Seq::<char>::empty());
    let ghost old_out = out.deep_view();
    let ghost last_seg = cur@;
    out.push(cur);
    assert(out.deep_view() =~~= old_out.push(last_seg));
    out
}

/// Appends the characters of the literal `s` to `out`.
pub fn push_str_chars(out: &mut Vec<char>, s: &str)
    ensures
        final(out)@ == old(out)@ + s@,
{
    let cs = str_to_chars(s);
    let mut i: usize = 0;
    while i < cs.len()
        invariant
            i <= cs@.len(),
            cs@ == s@,
            out@ == old(out)@ + s@.take(i as int),
        decreases cs.len() - i,
    {
        out.push(cs[i]);
        assert(out@ =~= old(out)@ + s@.take(i as int + 1));
        i += 1;
    }
    assert(s@.take(s@.len() as int) =~= s@);
}

/// Appends the characters of `v` to `out`.
pub fn push_chars(out: &mut Vec<char>, v: &Vec<char>)
    ensures
        final(out)@ == old(out)@ + v@,
{
    let mut i: usize = 0;
    while i < v.len()
        invariant
            i <= v@.len(),
            out@ == old(out)@ + v@.take(i as int),
        decreases v.len() - i,
    {
        out.push(v[i]);
        assert(out@ =~= old(out)@ + v@.take(i as int + 1));
        i += 1;
    }
    assert(v@.take(v@.len() as int) =~= v@);
}

/// Copies a string slice into an owned string.
pub fn str_to_string(s: &str) -> (r: String)
    ensures
        r@ == s@,
{
    let v = str_to_chars(s);
    chars_to_string(&v)
}

/// Whether the characters of `a` spell the literal `s`.
pub fn chars_eq_str(a: &Vec<char>, s: &str) -> (r: bool)
    ensures
        r == (a@ == s@),
{
    let sv = str_to_chars(s);
    chars_eq(a, &sv)
}

/// The whitespace characters recognized when trimming.
pub open spec fn is_space_char(c: char) -> bool {
    c == ' ' || c == '\t' || c == '\n' || c == '\r' || c == '\u{b}' || c == '\u{c}'
}

/// `s` without leading whitespace.
pub open spec fn trim_start_seq(s: Seq<char>) -> Seq<char>
    decreases s.len(),
{
    if s.len() > 0 && is_space_char(s[0]) {
        trim_start_seq(s.drop_first())
    } else {
        s
    }
}

/// `s` without trailing whitespace.
pub open spec fn trim_end_seq(s: Seq<char>) -> Seq<char>
    decreases s.len(),
{
    if s.len() > 0 && is_space_char(s[s.len() - 1]) {
        trim_end_seq(s.drop_last())
    } else {
        s
    }
}

/// `s` without leading or trailing whitespace.
pub open spec fn trim_seq(s: Seq<char>) -> Seq<char> {
    trim_end_seq(trim_start_seq(s))
}

fn is_space(c: char) -> (r: bool)
    ensures
        r == is_space_char(c),
{
    c == ' ' || c == '\t' || c == '\n' || c == '\r' || c == '\u{b}' || c == '\u{c}'
}

proof fn lemma_trim_start_skip(s: Seq<char>, i: int)
    requires
        0 <= i <= s.len(),
        forall|j: int| 0 <= j < i ==> is_space_char(s[j]),
    ensures
        trim_start_seq(s) == trim_start_seq(s.skip(i)),
    decreases i,
{
    if i == 0 {
        assert(s.skip(0) =~= s);
    } else {
        assert(is_space_char(s[0]));
        assert(s.drop_first() =~= s.skip(1));
        assert(forall|j: int| 0 <= j < i - 1 ==> is_space_char(#[trigger] s.skip(1)[j]));
        lemma_trim_start_skip(s.skip(1), i - 1);
        assert(s.skip(1).skip(i - 1) =~= s.skip(i));
    }
}

proof fn lemma_trim_end_take(s: Seq<char>, i: int)
    requires
        0 <= i <= s.len(),
        forall|j: int| i <= j < s.len() ==> is_space_char(s[j]),
    ensures
        trim_end_seq(s) == trim_end_seq(s.take(i)),
    decreases s.len() - i,
{
    if i < s.len() {
        assert(is_space_char(s[s.len() - 1]));
        assert(s.drop_last() =~= s.take(s.len() - 1));
        lemma_trim_end_take(s.take(s.len() - 1), i);
        assert(s.take(s.len() - 1).take(i) =~= s.take(i));
    } else {
        assert(s.take(i) =~= s);
    }
}

/// `v` without leading or trailing whitespace, per `trim_seq`.
pub fn trim_chars(v: &Vec<char>) -> (r: Vec<char>)
    ensures
        r@ == trim_seq(v@),
{
    let mut start: usize = 0;
    while start < v.len() && is_space(v[start])
        invariant
            start <= v@.len(),
            forall|j: int| 0 <= j < start ==> is_space_char(v@[j]),
        decreases v.len() - start,
    {
        start += 1;
    }
    proof {
        lemma_trim_start_skip(v@, start as int);
    }
    let ghost tail = v@.skip(start as int);
    if start == v.len() {
        assert(tail =~= Seq::<char>::empty());
        return Vec::new();
    }
    // tail starts with a non-space character, so trimming its start is a no-op
    assert(!is_space_char(v@[start as int]));
    assert(tail[0] == v@[start as int]);
    assert(trim_start_seq(tail) == tail);
    let mut end: usize = v.len();
    while end > start && is_space(v[end - 1])
        invariant
            start <= end <= v@.len(),
            forall|j: int| end <= j < v@.len() ==> is_space_char(v@[j]),
        decreases end,
    {
        end -= 1;
    }
    assert(end > start) by {
        if end == start {
            assert(is_space_char(v@[start as int]));
        }
    }
    proof {
        lemma_trim_end_take_rel(tail, start as int, end as int, v@);
    }
    subrange_chars(v, start, end)
}

proof fn lemma_trim_end_take_rel(tail: Seq<char>, start: int, end: int, s: Seq<char>)
    requires
        0 <= start <= end <= s.len(),
        tail == s.skip(start),
        end > start,
        !is_space_char(s[end - 1]),
        forall|j: int| end <= j < s.len() ==> is_space_char(s[j]),
    ensures
        trim_end_seq(tail) == s.subrange(start, end),
{
    assert(forall|j: int| end - start <= j < tail.len() ==> is_space_char(tail[j]));
    lemma_trim_end_take(tail, end - start);
    let t = tail.take(end - start);
    assert(t =~= s.subrange(start, end));
    assert(t.len() > 0 && !is_space_char(t[t.len() - 1]));
}


/// Splitting any sequence yields at least one segment.
pub proof fn lemma_split_nonempty(s: Seq<char>, sep: char)
    ensures
        spec_split(s, sep).len() > 0,
{
    lemma_split_acc_grows(s, sep, Seq::empty(), Seq::empty());
}

proof fn lemma_split_acc_grows(s: Seq<char>, sep: char, cur: Seq<char>, out: Seq<Seq<char>>)
    ensures
        split_acc(s, sep, cur, out).len() > out.len(),
    decreases s.len(),
{
    if s.len() == 0 {
    } else if s[0] == sep {
        lemma_split_acc_grows(s.drop_first(), sep, Seq::empty(), out.push(cur));
    } else {
        lemma_split_acc_grows(s.drop_first(), sep, cur.push(s[0]), out);
    }
}

/// The combined length of the segments of `ss`.
pub open spec fn sum_lens(ss: Seq<Seq<char>>) -> int
    decreases ss.len(),
{
    if ss.len() == 0 {
        0
    } else {
        sum_lens(ss.drop_last()) + ss.last().len()
    }
}

/// Taking one more segment adds its length to the sum.
pub proof fn lemma_sum_lens_take_step(ss: Seq<Seq<char>>, i: int)
    requires
        0 <= i < ss.len(),
    ensures
        sum_lens(ss.take(i + 1)) == sum_lens(ss.take(i)) + ss[i].len(),
{
    assert(ss.take(i + 1).drop_last() =~= ss.take(i));
    assert(ss.take(i + 1).last() == ss[i]);
}

/// A prefix of the segments weighs at most the whole.
pub proof fn lemma_sum_lens_take_le(ss: Seq<Seq<char>>, i: int)
    requires
        0 <= i <= ss.len(),
    ensures
        sum_lens(ss.take(i)) <= sum_lens(ss),
    decreases ss.len() - i,
{
    if i == ss.len() {
        assert(ss.take(i) =~= ss);
    } else {
        lemma_sum_lens_take_step(ss, i);
        lemma_sum_lens_take_le(ss, i + 1);
        assert(ss[i].len() >= 0);
    }
}

proof fn lemma_split_acc_sum(s: Seq<char>, sep: char, cur: Seq<char>, out: Seq<Seq<char>>)
    ensures
        sum_lens(split_acc(s, sep, cur, out)) <= sum_lens(out) + cur.len() + s.len(),
    decreases s.len(),
{
    if s.len() == 0 {
        assert(out.push(cur).drop_last() =~= out);
    } else if s[0] == sep {
        lemma_split_acc_sum(s.drop_first(), sep, Seq::empty(), out.push(cur));
        assert(out.push(cur).drop_last() =~= out);
        assert(sum_lens(out.push(cur)) == sum_lens(out) + cur.len());
    } else {
        lemma_split_acc_sum(s.drop_first(), sep, cur.push(s[0]), out);
    }
}

/// The segments of a split never hold more characters than the input.
pub proof fn lemma_split_sum_le(s: Seq<char>, sep: char)
    ensures
        sum_lens(spec_split(s, sep)) <= s.len(),
{
    lemma_split_acc_sum(s, sep, Seq::empty(), Seq::empty());
}

/// How many times `c` occurs in `s`.
pub open spec fn count_char(s: Seq<char>, c: char) -> int
    decreases s.len(),
{
    if s.len() == 0 {
        0
    } else {
        count_char(s.drop_last(), c) + if s.last() == c {
            1int
        } else {
            0int
        }
    }
}

/// Two distinct characters cannot together occur more often than there are
/// characters.
pub proof fn lemma_count_two_le_len(s: Seq<char>, a: char, b: char)
    requires
        a != b,
    ensures
        0 <= count_char(s, a) + count_char(s, b) <= s.len(),
    decreases s.len(),
{
    if s.len() > 0 {
        lemma_count_two_le_len(s.drop_last(), a, b);
    }
}

/// Counts the occurrences of `c` in `v`.
pub fn count_char_exec(v: &Vec<char>, c: char) -> (r: usize)
    ensures
        r as int == count_char(v@, c),
{
    let mut cnt: usize = 0;
    let mut i: usize = 0;
    assert(v@.take(0) =~= Seq::<char>::empty());
    while i < v.len()
        invariant
            i <= v@.len(),
            cnt as int == count_char(v@.take(i as int), c),
            cnt <= i,
        decreases v.len() - i,
    {
        assert(v@.take(i as int + 1).drop_last() =~= v@.take(i as int));
        assert(v@.take(i as int + 1).last() == v@[i as int]);
        if v[i] == c {
            cnt += 1;
        }
        i += 1;
    }
    assert(v@.take(v@.len() as int) =~= v@);
    cnt
}

/// The position of the first occurrence of `n` in `h`, as a specification.
pub open spec fn first_sub_idx(h: Seq<char>, n: Seq<char>) -> Option<int>
    decreases h.len(),
{
    if matches_at(h, n, 0) {
        Some(0)
    } else if h.len() == 0 {
        None
    } else {
        match first_sub_idx(h.drop_first(), n) {
            Some(k) => Some(k + 1),
            None => None,
        }
    }
}

/// Shifting the haystack by one shifts every match by one.
proof fn lemma_matches_at_shift(h: Seq<char>, n: Seq<char>, k: int)
    requires
        k >= 1,
        h.len() >= 1,
    ensures
        matches_at(h, n, k) == matches_at(h.drop_first(), n, k - 1),
{
    if matches_at(h, n, k) {
        assert forall|j: int| 0 <= j < n.len() implies h.drop_first()[k - 1 + j] == n[j] by {
            assert(h[k + j] == n[j]);
        }
    }
    if matches_at(h.drop_first(), n, k - 1) {
        assert forall|j: int| 0 <= j < n.len() implies h[k + j] == n[j] by {
            assert(h.drop_first()[k - 1 + j] == n[j]);
        }
    }
}

pub proof fn lemma_first_sub_at(h: Seq<char>, n: Seq<char>, k: int)
    requires
        matches_at(h, n, k),
        forall|j: int| 0 <= j < k ==> !matches_at(h, n, j),
    ensures
        first_sub_idx(h, n) == Some(k),
    decreases k,
{
    if k == 0 {
    } else {
        assert(!matches_at(h, n, 0));
        assert(h.len() >= 1);
        lemma_matches_at_shift(h, n, k);
        assert forall|j: int| 0 <= j < k - 1 implies !matches_at(h.drop_first(), n, j) by {
            lemma_matches_at_shift(h, n, j + 1);
        }
        lemma_first_sub_at(h.drop_first(), n, k - 1);
    }
}

pub proof fn lemma_first_sub_none(h: Seq<char>, n: Seq<char>)
    requires
        forall|j: int| !matches_at(h, n, j),
    ensures
        first_sub_idx(h, n) is None,
    decreases h.len(),
{
    if !matches_at(h, n, 0) && h.len() > 0 {
        assert forall|j: int| !matches_at(h.drop_first(), n, j) by {
            if 0 <= j {
                lemma_matches_at_shift(h, n, j + 1);
            }
        }
        lemma_first_sub_none(h.drop_first(), n);
    }
}

/// Position of the first occurrence of `n` in `h`, as `first_sub_idx` gives
/// it.
pub fn find_first(h: &Vec<char>, n: &Vec<char>) -> (r: Option<usize>)
    ensures
        match r {
            Some(i) => first_sub_idx(h@, n@) == Some(i as int),
            None => first_sub_idx(h@, n@) is None,
        },
{
    match find_sub(h, n) {
        Some(i) => {
            proof {
                lemma_first_sub_at(h@, n@, i as int);
            }
            Some(i)
        },
        None => {
            proof {
                lemma_first_sub_none(h@, n@);
            }
            None
        },
    }
}

/// The segments of `s` between occurrences of the separator string `sep`,
/// as `str::split` yields them.
pub open spec fn spec_split_on(s: Seq<char>, sep: Seq<char>) -> Seq<Seq<char>>
    decreases s.len(),
{
    if sep.len() == 0 {
        seq![s]
    } else {
        match first_sub_idx(s, sep) {
            None => seq![s],
            Some(k) => if 0 <= k && k + sep.len() <= s.len() {
                seq![s.take(k)] + spec_split_on(s.skip(k + sep.len()), sep)
            } else {
                seq![s]
            },
        }
    }
}

/// A first match leaves room for the needle.
pub proof fn lemma_first_sub_in_range(h: Seq<char>, n: Seq<char>)
    ensures
        match first_sub_idx(h, n) {
            Some(k) => 0 <= k && k + n.len() <= h.len(),
            None => true,
        },
    decreases h.len(),
{
    if matches_at(h, n, 0) {
    } else if h.len() > 0 {
        lemma_first_sub_in_range(h.drop_first(), n);
    }
}

/// Splits `v` on occurrences of the separator `sep`.
pub fn split_on(v: &Vec<char>, sep: &Vec<char>) -> (r: Vec<Vec<char>>)
    requires
        sep@.len() > 0,
    ensures
        r.deep_view() == spec_split_on(v@, sep@),
{
    broadcast use lemma_chars_deep_view;

    let mut parts: Vec<Vec<char>> = Vec::new();
    let mut cur = subrange_chars(v, 0, v.len());
    assert(cur@ =~= v@);
    assert(parts.deep_view() =~~= Seq::<Seq<char>>::empty());
    loop
        invariant
            sep@.len() > 0,
            parts.deep_view() + spec_split_on(cur@, sep@) == spec_split_on(v@, sep@),
        decreases cur@.len(),
    {
        let ghost pre_parts = parts.deep_view();
        let ghost pre_cur = cur@;
        match find_first(&cur, sep) {
            None => {
                parts.push(cur);
                assert(parts.deep_view() =~~= pre_parts.push(pre_cur));
                assert(parts.deep_view() =~~= pre_parts + seq![pre_cur]);
                return parts;
            },
            Some(k) => {
                proof {
                    lemma_first_sub_in_range(pre_cur, sep@);
                }
                let cl = cur.len();
                assert(k as int + sep@.len() <= cl as int);
                let head = subrange_chars(&cur, 0, k);
                assert(head@ =~= pre_cur.take(k as int));
                let next = subrange_chars(&cur, k + sep.len(), cur.len());
                assert(next@ =~= pre_cur.skip(k as int + sep@.len()));
                parts.push(head);
                cur = next;
                proof {
                    assert(parts.deep_view() =~~= pre_parts.push(pre_cur.take(k as int)));
                    assert(spec_split_on(pre_cur, sep@) == seq![pre_cur.take(k as int)]
                        + spec_split_on(cur@, sep@));
                    assert(pre_parts + spec_split_on(pre_cur, sep@) =~= pre_parts.push(
                        pre_cur.take(k as int),
                    ) + spec_split_on(cur@, sep@));
                }
            },
        }
    }
}

/// The last non-empty segment of `ss`, if any.
pub open spec fn last_nonempty(ss: Seq<Seq<char>>) -> Option<Seq<char>>
    decreases ss.len(),
{
    if ss.len() == 0 {
        None
    } else if ss.last().len() > 0 {
        Some(ss.last())
    } else {
        last_nonempty(ss.drop_last())
    }
}

/// Picks the last non-empty segment of `parts`.
pub fn last_nonempty_exec(parts: &Vec<Vec<char>>) -> (r: Option<Vec<char>>)
    ensures
        match r {
            Some(p) => last_nonempty(parts.deep_view()) == Some(p@),
            None => last_nonempty(parts.deep_view()) is None,
        },
{
    broadcast use lemma_chars_deep_view;

    let ghost dv = parts.deep_view();
    let mut i: usize = parts.len();
    assert(dv.take(dv.len() as int) =~= dv);
    while i > 0
        invariant
            i <= dv.len(),
            dv == parts.deep_view(),
            last_nonempty(dv) == last_nonempty(dv.take(i as int)),
        decreases i,
    {
        assert(dv.take(i as int).last() == dv[i as int - 1]);
        assert(dv.take(i as int).drop_last() =~= dv.take(i as int - 1));
        if parts[i - 1].len() > 0 {
            let p = subrange_chars(&parts[i - 1], 0, parts[i - 1].len());
            assert(p@ =~= dv[i as int - 1]);
            return Some(p);
        }
        i -= 1;
    }
    None
}

} // verus!
