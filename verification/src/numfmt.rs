//! Decimal rendering and parsing without floating point: integer digit
//! strings, fixed-point values with one or two decimal places (rounded half
//! to even, as the standard formatter rounds exact halves), and decimal
//! parsing of flag values and pause durations.
use vstd::prelude::*;
use vstd::arithmetic::div_mod::{lemma_fundamental_div_mod, lemma_fundamental_div_mod_converse};

verus! {

/// The character for a single decimal digit `d` in `0..10`.
pub open spec fn digit_char(d: int) -> char {
    ((48 + d) as u8) as char
}

/// The decimal digit string of `n >= 0`, without leading zeros.
pub open spec fn spec_digits(n: int) -> Seq<char>
    decreases n,
{
    if n < 10 {
        seq![digit_char(n)]
    } else {
        spec_digits(n / 10).push(digit_char(n % 10))
    }
}

/// The decimal digit string of `n`, with a leading minus sign if negative.
pub open spec fn spec_signed_digits(n: int) -> Seq<char> {
    if n < 0 {
        seq!['-'] + spec_digits(-n)
    } else {
        spec_digits(n)
    }
}

fn digit_exec(d: u128) -> (c: char)
    requires
        d < 10,
    ensures
        c == digit_char(d as int),
{
    (48 + d as u8) as char
}

/// Appends the decimal digits of `n` to `out`.
pub fn push_digits(out: &mut Vec<char>, n: u128)
    ensures
        final(out)@ == old(out)@ + spec_digits(n as int),
    decreases n,
{
    if n < 10 {
        out.push(digit_exec(n));
        assert(out@ =~= old(out)@ + spec_digits(n as int));
    } else {
        push_digits(out, n / 10);
        out.push(digit_exec(n % 10));
        assert(out@ =~= old(out)@ + spec_digits(n as int));
    }
}

/// Appends the decimal digits of `n`, sign included, to `out`.
pub fn push_i128(out: &mut Vec<char>, n: i128)
    ensures
        final(out)@ == old(out)@ + spec_signed_digits(n as int),
{
    if n >= 0 {
        push_digits(out, n as u128);
    } else {
        out.push('-');
        let m: u128 = ((-(n + 1)) as u128) + 1;
        assert(m == -(n as int));
        push_digits(out, m);
        assert(out@ =~= old(out)@ + spec_signed_digits(n as int));
    }
}

/// The decimal digits of `n`, as a string.
pub fn fmt_u64(n: u64) -> (s: String)
    ensures
        s@ == spec_digits(n as int),
{
    let mut v: Vec<char> = Vec::new();
    push_digits(&mut v, n as u128);
    crate::strutil::chars_to_string(&v)
}

/// `num / den` rounded to the nearest integer, halves to the even neighbour.
pub open spec fn round_half_even(num: int, den: int) -> int {
    let q = num / den;
    let r = num % den;
    if 2 * r > den || (2 * r == den && q % 2 == 1) {
        q + 1
    } else {
        q
    }
}

/// Two digits, zero padded, for `f` in `0..100`.
pub open spec fn pad2(f: int) -> Seq<char> {
    seq![digit_char(f / 10), digit_char(f % 10)]
}

/// `v / den` with two decimal places, rounded half to even.
pub open spec fn spec_fixed2(v: int, den: int) -> Seq<char> {
    let s = round_half_even(v * 100, den);
    spec_digits(s / 100) + seq!['.'] + pad2(s % 100)
}

/// One digit for `f` in `0..10`.
pub open spec fn pad1(f: int) -> Seq<char> {
    seq![digit_char(f)]
}

/// `v / den` with one decimal place, rounded half to even.
pub open spec fn spec_fixed1(v: int, den: int) -> Seq<char> {
    let s = round_half_even(v * 10, den);
    spec_digits(s / 10) + seq!['.'] + pad1(s % 10)
}

/// Appends `v / den` with two decimal places to `out`.
pub fn push_fixed2(out: &mut Vec<char>, v: u128, den: u128)
    requires
        1 <= den <= u64::MAX as u128,
        den >= 2 || v < u128::MAX,
    ensures
        final(out)@ == old(out)@ + spec_fixed2(v as int, den as int),
{
    let whole = v / den;
    let rem = v % den;
    let num2 = rem * 100;
    let cents = num2 / den;
    let crem = num2 % den;
    proof {
        lemma_fundamental_div_mod(v as int, den as int);
        lemma_fundamental_div_mod(num2 as int, den as int);
        assert((v as int) * 100 == (whole as int * 100 + cents as int) * (den as int)
            + crem as int) by (nonlinear_arith)
            requires
                v as int == (den as int) * (whole as int) + (rem as int),
                num2 as int == (den as int) * (cents as int) + (crem as int),
                num2 as int == (rem as int) * 100,
        ;
        assert((den as int) * (cents as int) < (den as int) * 100) by (nonlinear_arith)
            requires
                (rem as int) < (den as int),
                num2 as int == (rem as int) * 100,
                num2 as int == (den as int) * (cents as int) + (crem as int),
                crem as int >= 0,
        ;
        assert(cents < 100) by (nonlinear_arith)
            requires
                (den as int) * (cents as int) < (den as int) * 100,
                den as int > 0,
        ;
        lemma_fundamental_div_mod_converse(
            (v as int) * 100,
            den as int,
            whole as int * 100 + cents as int,
            crem as int,
        );
        if den >= 2 {
            assert(2 * (whole as int) <= (den as int) * (whole as int)) by (nonlinear_arith)
                requires
                    den as int >= 2,
                    whole as int >= 0,
            ;
        } else {
            assert(whole as int <= v as int);
        }
    }
    let ghost q = (v as int) * 100 / (den as int);
    assert(q == whole as int * 100 + cents as int);
    assert(q % 2 == cents as int % 2);
    let round_up = 2 * crem > den || (2 * crem == den && cents % 2 == 1);
    let cents2 = if round_up {
        cents + 1
    } else {
        cents
    };
    assert(cents2 as int == round_half_even((v as int) * 100, den as int) - whole as int * 100);
    if cents2 == 100 {
        proof {
            lemma_fundamental_div_mod_converse(
                whole as int * 100 + 100,
                100,
                whole as int + 1,
                0,
            );
        }
        push_digits(out, whole + 1);
        out.push('.');
        out.push('0');
        out.push('0');
        assert('0' == digit_char(0));
        assert(out@ =~= old(out)@ + spec_fixed2(v as int, den as int));
    } else {
        proof {
            lemma_fundamental_div_mod_converse(
                whole as int * 100 + cents2 as int,
                100,
                whole as int,
                cents2 as int,
            );
        }
        push_digits(out, whole);
        out.push('.');
        out.push(digit_exec(cents2 / 10));
        out.push(digit_exec(cents2 % 10));
        assert(out@ =~= old(out)@ + spec_fixed2(v as int, den as int));
    }
}

/// Appends `v / den` with one decimal place to `out`.
#[verifier::rlimit(30)]
pub fn push_fixed1(out: &mut Vec<char>, v: u128, den: u128)
    requires
        1 <= den <= u64::MAX as u128,
        den >= 2 || v < u128::MAX,
    ensures
        final(out)@ == old(out)@ + spec_fixed1(v as int, den as int),
{
    let whole = v / den;
    let rem = v % den;
    let num2 = rem * 10;
    let tenths = num2 / den;
    let trem = num2 % den;
    proof {
        lemma_fundamental_div_mod(v as int, den as int);
        lemma_fundamental_div_mod(num2 as int, den as int);
        assert((v as int) * 10 == (whole as int * 10 + tenths as int) * (den as int)
            + trem as int) by (nonlinear_arith)
            requires
                v as int == (den as int) * (whole as int) + (rem as int),
                num2 as int == (den as int) * (tenths as int) + (trem as int),
                num2 as int == (rem as int) * 10,
        ;
        assert((den as int) * (tenths as int) < (den as int) * 10) by (nonlinear_arith)
            requires
                (rem as int) < (den as int),
                num2 as int == (rem as int) * 10,
                num2 as int == (den as int) * (tenths as int) + (trem as int),
                trem as int >= 0,
        ;
        assert(tenths < 10) by (nonlinear_arith)
            requires
                (den as int) * (tenths as int) < (den as int) * 10,
                den as int > 0,
        ;
        lemma_fundamental_div_mod_converse(
            (v as int) * 10,
            den as int,
            whole as int * 10 + tenths as int,
            trem as int,
        );
        if den >= 2 {
            assert(2 * (whole as int) <= (den as int) * (whole as int)) by (nonlinear_arith)
                requires
                    den as int >= 2,
                    whole as int >= 0,
            ;
        } else {
            assert(whole as int <= v as int);
        }
    }
    let ghost q = (v as int) * 10 / (den as int);
    assert(q == whole as int * 10 + tenths as int);
    assert(q % 2 == tenths as int % 2);
    let round_up = 2 * trem > den || (2 * trem == den && tenths % 2 == 1);
    let tenths2 = if round_up {
        tenths + 1
    } else {
        tenths
    };
    assert(tenths2 as int == round_half_even((v as int) * 10, den as int) - whole as int * 10);
    if tenths2 == 10 {
        proof {
            lemma_fundamental_div_mod_converse(whole as int * 10 + 10, 10, whole as int + 1, 0);
        }
        push_digits(out, whole + 1);
        out.push('.');
        out.push('0');
        assert('0' == digit_char(0));
        assert(out@ =~= old(out)@ + spec_fixed1(v as int, den as int));
    } else {
        proof {
            lemma_fundamental_div_mod_converse(
                whole as int * 10 + tenths2 as int,
                10,
                whole as int,
                tenths2 as int,
            );
        }
        push_digits(out, whole);
        out.push('.');
        out.push(digit_exec(tenths2));
        assert(out@ =~= old(out)@ + spec_fixed1(v as int, den as int));
    }
}

/// Whether `c` is one of the ten decimal digit characters.
pub open spec fn is_dec_digit(c: char) -> bool {
    48 <= c as u32 <= 57
}

/// Whether every character of `s` is a decimal digit.
pub open spec fn all_digits(s: Seq<char>) -> bool {
    forall|i: int| 0 <= i < s.len() ==> is_dec_digit(#[trigger] s[i])
}

/// The numeric value of the digit string `s`, most significant digit first.
pub open spec fn dec_value(s: Seq<char>) -> int
    decreases s.len(),
{
    if s.len() == 0 {
        0
    } else {
        dec_value(s.drop_last()) * 10 + (s.last() as u32 - 48)
    }
}

/// Whether `c` is a decimal digit.
pub fn is_digit(c: char) -> (r: bool)
    ensures
        r == is_dec_digit(c),
{
    let u = c as u32;
    48 <= u && u <= 57
}

pub proof fn lemma_dec_value_nonneg(s: Seq<char>)
    requires
        all_digits(s),
    ensures
        dec_value(s) >= 0,
    decreases s.len(),
{
    if s.len() > 0 {
        assert(is_dec_digit(s[s.len() - 1]));
        lemma_dec_value_nonneg(s.drop_last());
    }
}

pub proof fn lemma_dec_value_monotone(s: Seq<char>, i: int, j: int)
    requires
        0 <= i <= j <= s.len(),
        all_digits(s),
    ensures
        dec_value(s.take(i)) <= dec_value(s.take(j)),
    decreases j - i,
{
    if i < j {
        lemma_dec_value_monotone(s, i, j - 1);
        let t = s.take(j);
        assert(t.drop_last() =~= s.take(j - 1));
        assert(all_digits(s.take(j - 1))) by {
            assert(forall|k: int|
                0 <= k < j - 1 ==> #[trigger] s.take(j - 1)[k] == s[k]);
        }
        lemma_dec_value_nonneg(s.take(j - 1));
        assert(is_dec_digit(t.last()));
    }
}

/// Powers of ten.
pub open spec fn spec_pow10(k: nat) -> int
    decreases k,
{
    if k == 0 {
        1
    } else {
        10 * spec_pow10((k - 1) as nat)
    }
}

pub proof fn lemma_dec_value_bound(s: Seq<char>)
    requires
        all_digits(s),
    ensures
        0 <= dec_value(s) < spec_pow10(s.len()),
    decreases s.len(),
{
    if s.len() > 0 {
        assert(s.drop_last() =~= s.take(s.len() - 1));
        assert(all_digits(s.drop_last())) by {
            assert(forall|k: int|
                0 <= k < s.len() - 1 ==> #[trigger] s.drop_last()[k] == s[k]);
        }
        lemma_dec_value_bound(s.drop_last());
        assert(is_dec_digit(s.last()));
    }
}

fn pow10(k: usize) -> (r: u64)
    requires
        k <= 9,
    ensures
        r as int == spec_pow10(k as nat),
{
    proof {
        reveal_with_fuel(spec_pow10, 11);
    }
    if k == 0 {
        1
    } else if k == 1 {
        10
    } else if k == 2 {
        100
    } else if k == 3 {
        1000
    } else if k == 4 {
        10000
    } else if k == 5 {
        100000
    } else if k == 6 {
        1000000
    } else if k == 7 {
        10000000
    } else if k == 8 {
        100000000
    } else {
        1000000000
    }
}

/// Parses `v` as an unsigned decimal integer: the digits' value, when `v` is
/// non-empty, all digits, and the value fits in a `u64`.
pub fn parse_u64(v: &Vec<char>) -> (r: Option<u64>)
    ensures
        r is Some <==> (v@.len() > 0 && all_digits(v@) && dec_value(v@) <= u64::MAX),
        r is Some ==> r->0 as int == dec_value(v@),
{
    if v.len() == 0 {
        return None;
    }
    let mut acc: u64 = 0;
    let mut i: usize = 0;
    let len = v.len();
    while i < len
        invariant
            0 < len == v@.len(),
            i <= len,
            all_digits(v@.take(i as int)),
            acc as int == dec_value(v@.take(i as int)),
        decreases len - i,
    {
        let c = v[i];
        if !is_digit(c) {
            assert(!all_digits(v@));
            return None;
        }
        let d: u64 = (c as u32 - 48) as u64;
        if acc > (u64::MAX - d) / 10 {
            proof {
                lemma_fundamental_div_mod(u64::MAX - d, 10);
                assert(acc as int * 10 >= ((u64::MAX - d) as int / 10) * 10 + 10);
                let t = v@.take(i as int + 1);
                assert(t.drop_last() =~= v@.take(i as int));
                assert(t.last() == v@[i as int]);
                assert(all_digits(t)) by {
                    assert(forall|k: int| 0 <= k < i ==> t[k] == v@.take(i as int)[k]);
                }
                assert(dec_value(t) > u64::MAX);
                if all_digits(v@) {
                    lemma_dec_value_monotone(v@, i as int + 1, len as int);
                    assert(v@.take(len as int) =~= v@);
                }
            }
            return None;
        }
        proof {
            let t = v@.take(i as int + 1);
            assert(t.drop_last() =~= v@.take(i as int));
            assert(t.last() == v@[i as int]);
            assert(all_digits(t)) by {
                assert(forall|k: int| 0 <= k < i ==> t[k] == v@.take(i as int)[k]);
            }
            lemma_fundamental_div_mod(u64::MAX - d, 10);
        }
        acc = acc * 10 + d;
        i += 1;
    }
    assert(v@.take(len as int) =~= v@);
    Some(acc)
}

/// The index of the first `.` in `s`, if any.
pub open spec fn first_dot(s: Seq<char>) -> Option<int>
    decreases s.len(),
{
    if s.len() == 0 {
        None
    } else if s[0] == '.' {
        Some(0)
    } else {
        match first_dot(s.drop_first()) {
            Some(k) => Some(k + 1),
            None => None,
        }
    }
}

proof fn lemma_first_dot_at(s: Seq<char>, k: int)
    requires
        0 <= k < s.len(),
        s[k] == '.',
        forall|j: int| 0 <= j < k ==> s[j] != '.',
    ensures
        first_dot(s) == Some(k),
    decreases k,
{
    if k > 0 {
        lemma_first_dot_at(s.drop_first(), k - 1);
    }
}

proof fn lemma_first_dot_none(s: Seq<char>)
    requires
        forall|j: int| 0 <= j < s.len() ==> s[j] != '.',
    ensures
        first_dot(s) is None,
    decreases s.len(),
{
    if s.len() > 0 {
        lemma_first_dot_none(s.drop_first());
    }
}

/// The fractional digits `f`, read as nanoseconds: scaled to nine places,
/// further places dropped.
pub open spec fn frac_nanos(f: Seq<char>) -> int {
    if f.len() >= 9 {
        dec_value(f.take(9))
    } else {
        dec_value(f) * spec_pow10((9 - f.len()) as nat)
    }
}

/// The value of `s` as a duration in whole nanoseconds: `s` must be decimal
/// digits with at most one point and at least one digit; fractional digits
/// beyond the ninth are dropped.
pub open spec fn spec_secs_nanos(s: Seq<char>) -> Option<int> {
    match first_dot(s) {
        None => if s.len() > 0 && all_digits(s) {
            Some(dec_value(s) * 1_000_000_000)
        } else {
            None
        },
        Some(k) => {
            let ip = s.take(k);
            let fp = s.skip(k + 1);
            if s.len() >= 2 && all_digits(ip) && all_digits(fp) {
                Some(dec_value(ip) * 1_000_000_000 + frac_nanos(fp))
            } else {
                None
            }
        },
    }
}

/// Whether every character of `v` is a decimal digit.
fn all_digits_exec(v: &Vec<char>) -> (r: bool)
    ensures
        r == all_digits(v@),
{
    let mut i: usize = 0;
    while i < v.len()
        invariant
            i <= v@.len(),
            forall|k: int| 0 <= k < i ==> is_dec_digit(#[trigger] v@[k]),
        decreases v.len() - i,
    {
        if !is_digit(v[i]) {
            return false;
        }
        i += 1;
    }
    true
}

/// The value of a digit vector of at most 19 characters.
fn digits_value(v: &Vec<char>) -> (r: u64)
    requires
        all_digits(v@),
        v@.len() <= 19,
        dec_value(v@) <= u64::MAX,
    ensures
        r as int == dec_value(v@),
{
    let mut acc: u64 = 0;
    let mut i: usize = 0;
    let len = v.len();
    while i < len
        invariant
            len == v@.len() <= 19,
            i <= len,
            all_digits(v@),
            dec_value(v@) <= u64::MAX,
            acc as int == dec_value(v@.take(i as int)),
        decreases len - i,
    {
        let c = v[i];
        assert(is_dec_digit(v@[i as int]));
        let d: u64 = (c as u32 - 48) as u64;
        proof {
            let t = v@.take(i as int + 1);
            assert(t.drop_last() =~= v@.take(i as int));
            assert(t.last() == v@[i as int]);
            lemma_dec_value_monotone(v@, i as int + 1, len as int);
            assert(v@.take(len as int) =~= v@);
            assert(all_digits(v@.take(i as int))) by {
                assert(forall|k: int|
                    0 <= k < i ==> v@.take(i as int)[k] == v@[k]);
            }
            lemma_dec_value_nonneg(v@.take(i as int));
        }
        acc = acc * 10 + d;
        i += 1;
    }
    assert(v@.take(len as int) =~= v@);
    acc
}

/// Parses a seconds string (`"4.3449655"`) into whole nanoseconds, when it
/// fits the grammar of `spec_secs_nanos` and the value fits in a `u64`.
pub fn parse_secs_nanos(v: &Vec<char>) -> (r: Option<u64>)
    ensures
        r is Some <==> (spec_secs_nanos(v@) is Some && spec_secs_nanos(v@)->0 <= u64::MAX),
        r is Some ==> r->0 as int == spec_secs_nanos(v@)->0,
{
    let dotv: Vec<char> = {
        let mut d: Vec<char> = Vec::new();
        d.push('.');
        d
    };
    let dot = crate::strutil::find_sub(v, &dotv);
    match dot {
        None => {
            proof {
                assert(forall|j: int| 0 <= j < v@.len() ==> v@[j] != '.') by {
                    assert(forall|j: int|
                        0 <= j < v@.len() && v@[j] == '.' ==> crate::strutil::matches_at(
                            v@,
                            dotv@,
                            j,
                        ));
                }
                lemma_first_dot_none(v@);
            }
            match parse_u64(v) {
                None => {
                    proof {
                        if v@.len() > 0 && all_digits(v@) {
                            lemma_dec_value_nonneg(v@);
                            assert(dec_value(v@) > u64::MAX);
                            assert(dec_value(v@) * 1_000_000_000 >= dec_value(v@));
                        }
                    }
                    None
                },
                Some(iv) => {
                    if iv > u64::MAX / 1_000_000_000 {
                        proof {
                            lemma_fundamental_div_mod(u64::MAX as int, 1_000_000_000);
                        }
                        None
                    } else {
                        proof {
                            lemma_fundamental_div_mod(u64::MAX as int, 1_000_000_000);
                        }
                        Some(iv * 1_000_000_000)
                    }
                },
            }
        },
        Some(k) => {
            proof {
                assert(crate::strutil::matches_at(v@, dotv@, k as int));
                assert(v@[k as int + 0] == dotv@[0]);
                assert forall|j: int| 0 <= j < k implies v@[j] != '.' by {
                    if v@[j] == '.' {
                        assert(v@[j + 0] == dotv@[0]);
                        assert(crate::strutil::matches_at(v@, dotv@, j));
                    }
                }
                lemma_first_dot_at(v@, k as int);
            }
            if v.len() < 2 {
                return None;
            }
            let ip = crate::strutil::subrange_chars(v, 0, k);
            let fp = crate::strutil::subrange_chars(v, k + 1, v.len());
            assert(ip@ =~= v@.take(k as int));
            assert(fp@ =~= v@.skip(k as int + 1));
            if !all_digits_exec(&ip) || !all_digits_exec(&fp) {
                return None;
            }
            // integer part value, refusing values whose nanoseconds overflow
            let iv: u64 = if ip.len() == 0 {
                0
            } else {
                match parse_u64(&ip) {
                    None => {
                        proof {
                            lemma_dec_value_nonneg(ip@);
                            assert(dec_value(ip@) > u64::MAX);
                            lemma_dec_value_bound(fp@);
                            if fp@.len() >= 9 {
                                assert(all_digits(fp@.take(9))) by {
                                    assert(forall|j: int|
                                        0 <= j < 9 ==> fp@.take(9)[j] == fp@[j]);
                                }
                                lemma_dec_value_nonneg(fp@.take(9));
                            } else {
                                lemma_pow10_pos((9 - fp@.len()) as nat);
                                assert(dec_value(fp@) * spec_pow10((9 - fp@.len()) as nat)
                                    >= 0) by (nonlinear_arith)
                                    requires
                                        dec_value(fp@) >= 0,
                                        spec_pow10((9 - fp@.len()) as nat) > 0,
                                ;
                            }
                            assert(frac_nanos(fp@) >= 0);
                            assert(dec_value(ip@) * 1_000_000_000 >= dec_value(ip@));
                        }
                        return None;
                    },
                    Some(x) => x,
                }
            };
            // fractional part as nanoseconds
            let f9: u64 = if fp.len() >= 9 {
                let f = crate::strutil::subrange_chars(&fp, 0, 9);
                assert(f@ =~= fp@.take(9));
                proof {
                    assert(all_digits(f@));
                    lemma_dec_value_bound(f@);
                    reveal_with_fuel(spec_pow10, 11);
                }
                digits_value(&f)
            } else {
                proof {
                    lemma_dec_value_bound(fp@);
                    reveal_with_fuel(spec_pow10, 11);
                }
                let fv = digits_value(&fp);
                let scale = pow10(9 - fp.len());
                proof {
                    lemma_pow10_mul_bound(fp@.len() as nat);
                }
                fv * scale
            };
            assert(f9 as int == frac_nanos(fp@));
            assert(f9 < 1_000_000_000) by {
                if fp@.len() >= 9 {
                    assert(fp@.take(9).len() == 9);
                    assert(all_digits(fp@.take(9))) by {
                        assert(forall|j: int| 0 <= j < 9 ==> fp@.take(9)[j] == fp@[j]);
                    }
                    lemma_dec_value_bound(fp@.take(9));
                    reveal_with_fuel(spec_pow10, 11);
                } else {
                    lemma_dec_value_bound(fp@);
                    lemma_pow10_mul_bound(fp@.len() as nat);
                }
            }
            if iv > (u64::MAX - f9) / 1_000_000_000 {
                proof {
                    lemma_fundamental_div_mod((u64::MAX - f9) as int, 1_000_000_000);
                }
                None
            } else {
                proof {
                    lemma_fundamental_div_mod((u64::MAX - f9) as int, 1_000_000_000);
                }
                Some(iv * 1_000_000_000 + f9)
            }
        },
    }
}


/// Division truncated toward zero, as the machine division of signed values.
pub open spec fn div_trunc(a: int, d: int) -> int {
    if a >= 0 {
        a / d
    } else {
        -((-a) / d)
    }
}

/// `a / d` truncated toward zero.
pub fn div_trunc_i64(a: i64, d: u64) -> (r: i64)
    requires
        2 <= d,
    ensures
        r as int == div_trunc(a as int, d as int),
{
    if a >= 0 {
        ((a as u64) / d) as i64
    } else {
        let m: u64 = ((-(a + 1)) as u64) + 1;
        assert(m as int == -(a as int));
        let q = m / d;
        proof {
            vstd::arithmetic::div_mod::lemma_div_is_ordered_by_denominator(m as int, 2, d as int);
        }
        -(q as i64)
    }
}

proof fn lemma_pow10_pos(k: nat)
    ensures
        spec_pow10(k) > 0,
    decreases k,
{
    if k > 0 {
        lemma_pow10_pos((k - 1) as nat);
    }
}

/// For a digit string of fewer than nine places, its value scaled to nine
/// places stays under one billion.
proof fn lemma_pow10_mul_bound(len: nat)
    requires
        len < 9,
    ensures
        forall|v: int|
            0 <= v < spec_pow10(len) ==> 0 <= #[trigger] (v * spec_pow10((9 - len) as nat))
                < 1_000_000_000 && v * spec_pow10((9 - len) as nat) <= u64::MAX,
{
    reveal_with_fuel(spec_pow10, 11);
    lemma_pow10_split(len, (9 - len) as nat);
    assert forall|v: int| 0 <= v < spec_pow10(len) implies 0 <= #[trigger] (v * spec_pow10(
        (9 - len) as nat,
    )) < 1_000_000_000 && v * spec_pow10((9 - len) as nat) <= u64::MAX by {
        let p = spec_pow10((9 - len) as nat);
        lemma_pow10_pos((9 - len) as nat);
        assert(v * p >= 0) by (nonlinear_arith)
            requires
                v >= 0,
                p > 0,
        ;
        assert(v * p <= (spec_pow10(len) - 1) * p) by (nonlinear_arith)
            requires
                v <= spec_pow10(len) - 1,
                p > 0,
        ;
        assert((spec_pow10(len) - 1) * p == spec_pow10(len) * p - p) by (nonlinear_arith);
        assert(spec_pow10(len) * p == 1_000_000_000);
    }
}

proof fn lemma_pow10_split(a: nat, b: nat)
    ensures
        spec_pow10(a) * spec_pow10(b) == spec_pow10(a + b),
    decreases a,
{
    if a == 0 {
    } else {
        lemma_pow10_split((a - 1) as nat, b);
        assert(spec_pow10(a) * spec_pow10(b) == 10 * (spec_pow10((a - 1) as nat) * spec_pow10(
            b,
        ))) by (nonlinear_arith)
            requires
                spec_pow10(a) == 10 * spec_pow10((a - 1) as nat),
        ;
        assert((a - 1) + b == (a + b) - 1);
    }
}

} // verus!
