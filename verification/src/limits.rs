//! Parsing of memory, CPU and network-rate limits from manifests.
//!
//! Memory strings accept `K|Ki|M|Mi|G|Gi` with the binary multiplier and
//! bare numbers are GiB; CPU values encode cores and are stored as
//! nanocpus (`value * 10^9`); network rates accept `Kbps|Mbps|Gbps` with
//! decimal multipliers.  Numerals are unsigned decimals with at most one
//! point, at most nine fractional digits and at most 26 characters;
//! values are computed exactly and truncated toward zero, saturating at
//! `u64::MAX`.

use vstd::prelude::*;

use crate::text::{all_digits, digits_val, is_digit_char};

verus! {

/// A manifest limit value: a YAML number (carried as its decimal
/// rendering), a string, or a value of any other shape.
#[derive(Debug)]
pub enum LimitValue {
    Number(String),
    Text(String),
    Unsupported,
}

/// Why a limit failed to parse.
#[derive(Clone, Copy, PartialEq, Eq, Structural, Debug)]
pub enum LimitError {
    /// A numeric limit that is not an unsigned decimal numeral.
    InvalidNumber,
    /// A string limit whose shape (numeral plus unit) is not recognised.
    InvalidFormat,
    /// A limit that is neither a number nor a string.
    UnsupportedType,
    /// A CPU limit of zero, or one whose nanocpu value exceeds `u64::MAX`.
    OutOfRange,
}

pub open spec fn pow10(k: nat) -> nat
    decreases k,
{
    if k == 0 {
        1
    } else {
        10 * pow10((k - 1) as nat)
    }
}

/// Position of the first `'.'`, or the length if there is none.
pub open spec fn find_dot(s: Seq<char>) -> int
    decreases s.len(),
{
    if s.len() == 0 {
        0
    } else if s[0] == '.' {
        0
    } else {
        1 + find_dot(s.skip(1))
    }
}

pub open spec fn int_part(s: Seq<char>) -> Seq<char> {
    s.take(find_dot(s))
}

pub open spec fn frac_part(s: Seq<char>) -> Seq<char> {
    if find_dot(s) < s.len() {
        s.skip(find_dot(s) + 1)
    } else {
        Seq::empty()
    }
}

/// An unsigned decimal numeral: digits with at most one point, at least
/// one digit, at most nine fractional digits, at most 26 characters.
pub open spec fn is_decimal_seq(s: Seq<char>) -> bool {
    &&& all_digits(int_part(s))
    &&& all_digits(frac_part(s))
    &&& int_part(s).len() + frac_part(s).len() >= 1
    &&& frac_part(s).len() <= 9
    &&& s.len() <= 26
}

/// The numerator of the numeral over `pow10(frac_part(s).len())`.
pub open spec fn dec_num(s: Seq<char>) -> int {
    digits_val(int_part(s)) * pow10(frac_part(s).len() as nat) + digits_val(frac_part(s))
}

/// The numeral's value scaled by `multiplier`, truncated toward zero.
pub open spec fn scaled_dec(s: Seq<char>, multiplier: int) -> int {
    (dec_num(s) * multiplier) / (pow10(frac_part(s).len() as nat) as int)
}

/// Saturation at `u64::MAX`.
pub open spec fn capped(x: int) -> int {
    if x > u64::MAX {
        u64::MAX as int
    } else {
        x
    }
}

proof fn lemma_find_dot_range(s: Seq<char>)
    ensures
        0 <= find_dot(s) <= s.len(),
        find_dot(s) < s.len() ==> s[find_dot(s)] == '.',
        forall|i: int| 0 <= i < find_dot(s) ==> s[i] != '.',
    decreases s.len(),
{
    if s.len() > 0 && s[0] != '.' {
        lemma_find_dot_range(s.skip(1));
        assert forall|i: int| 0 <= i < find_dot(s) implies s[i] != '.' by {
            if i > 0 {
                assert(s.skip(1)[i - 1] == s[i]);
            }
        }
    }
}

proof fn lemma_digits_val_bound(s: Seq<char>)
    requires
        all_digits(s),
    ensures
        0 <= digits_val(s) < pow10(s.len()),
    decreases s.len(),
{
    if s.len() > 0 {
        assert(all_digits(s.drop_last()));
        lemma_digits_val_bound(s.drop_last());
        assert(is_digit_char(s.last()));
        assert(pow10(s.len()) == 10 * pow10((s.len() - 1) as nat));
    }
}

proof fn lemma_digits_val_concat(a: Seq<char>, b: Seq<char>)
    ensures
        digits_val(a + b) == digits_val(a) * pow10(b.len()) + digits_val(b),
    decreases b.len(),
{
    if b.len() == 0 {
        assert(a + b =~= a);
        assert(digits_val(b) == 0);
        assert(pow10(b.len()) == 1);
        assert(digits_val(a + b) == digits_val(a) * pow10(b.len()) + digits_val(b));
    } else {
        lemma_digits_val_concat(a, b.drop_last());
        let x = digits_val(a);
        let p1 = pow10((b.len() - 1) as nat) as int;
        let v1 = digits_val(b.drop_last());
        let d = crate::text::digit_val(b.last());
        assert((a + b).drop_last() =~= a + b.drop_last());
        assert((a + b).last() == b.last());
        assert(pow10(b.len()) == 10 * pow10((b.len() - 1) as nat));
        assert(digits_val(a + b) == digits_val((a + b).drop_last()) * 10 + crate::text::digit_val(
            (a + b).last(),
        ));
        assert(digits_val(a + b) == (x * p1 + v1) * 10 + d);
        assert(digits_val(b) == v1 * 10 + d);
        assert(pow10(b.len()) as int == 10 * p1);
        assert(digits_val(a + b) == x * (pow10(b.len()) as int) + digits_val(b))
            by (nonlinear_arith)
            requires
                digits_val(a + b) == (x * p1 + v1) * 10 + d,
                digits_val(b) == v1 * 10 + d,
                pow10(b.len()) as int == 10 * p1,
        ;
    }
}

proof fn lemma_pow10_values()
    ensures
        pow10(0) == 1,
        pow10(1) == 10,
        pow10(2) == 100,
        pow10(3) == 1000,
        pow10(4) == 10000,
        pow10(5) == 100000,
        pow10(6) == 1000000,
        pow10(7) == 10000000,
        pow10(8) == 100000000,
        pow10(9) == 1_000_000_000,
        pow10(26) == 100_000_000_000_000_000_000_000_000,
{
    assert(pow10(0) == 1);
    assert(pow10(1) == 10);
    assert(pow10(2) == 100);
    assert(pow10(3) == 1000);
    assert(pow10(4) == 10000);
    assert(pow10(5) == 100000);
    assert(pow10(6) == 1000000);
    assert(pow10(7) == 10000000);
    assert(pow10(8) == 100000000);
    assert(pow10(9) == 1000000000);
    assert(pow10(10) == 10000000000);
    assert(pow10(11) == 100000000000);
    assert(pow10(12) == 1000000000000);
    assert(pow10(13) == 10000000000000);
    assert(pow10(14) == 100000000000000);
    assert(pow10(15) == 1000000000000000);
    assert(pow10(16) == 10000000000000000);
    assert(pow10(17) == 100000000000000000);
    assert(pow10(18) == 1000000000000000000);
    assert(pow10(19) == 10000000000000000000);
    assert(pow10(20) == 100000000000000000000);
    assert(pow10(21) == 1000000000000000000000);
    assert(pow10(22) == 10000000000000000000000);
    assert(pow10(23) == 100000000000000000000000);
    assert(pow10(24) == 1000000000000000000000000);
    assert(pow10(25) == 10000000000000000000000000);
    assert(pow10(26) == 100000000000000000000000000);
}

/// Powers of ten up to `10^9`.
fn pow10_u64(k: usize) -> (r: u64)
    requires
        k <= 9,
    ensures
        r == pow10(k as nat),
        r >= 1,
{
    proof {
        lemma_pow10_values();
    }
    match k {
        0 => 1,
        1 => 10,
        2 => 100,
        3 => 1_000,
        4 => 10_000,
        5 => 100_000,
        6 => 1_000_000,
        7 => 10_000_000,
        8 => 100_000_000,
        _ => 1_000_000_000,
    }
}

/// Parse an unsigned decimal numeral and scale it by `multiplier`,
/// truncating toward zero and saturating at `u64::MAX`.
pub fn parse_decimal_scaled(s: &str, multiplier: u64) -> (r: Option<u64>)
    requires
        1 <= multiplier <= 0x4000_0000,
    ensures
        r is Some <==> is_decimal_seq(s@),
        r is Some ==> r->0 == capped(scaled_dec(s@, multiplier as int)),
{
    match parse_decimal_full(s, multiplier) {
        Some((v, _, _)) => Some(v),
        None => None,
    }
}

/// As `parse_decimal_scaled`, but also reports whether the scaled value
/// saturated and whether the numeral denotes zero.
#[verifier::loop_isolation(false)]
fn parse_decimal_full(s: &str, multiplier: u64) -> (r: Option<(u64, bool, bool)>)
    requires
        1 <= multiplier <= 0x4000_0000,
    ensures
        r is Some <==> is_decimal_seq(s@),
        match r {
            Some((v, saturated, zero)) => {
                &&& v == capped(scaled_dec(s@, multiplier as int))
                &&& saturated == (scaled_dec(s@, multiplier as int) > u64::MAX)
                &&& zero == (dec_num(s@) == 0)
            },
            None => !is_decimal_seq(s@),
        },
{
    let len: usize = s.unicode_len();
    proof {
        lemma_find_dot_range(s@);
        lemma_pow10_values();
    }
    if len > 26 {
        return None;
    }
    let mut acc: u128 = 0;
    let mut dot_pos: Option<usize> = None;
    let mut i: usize = 0;
    while i < len
        invariant
            0 <= i <= len <= 26,
            len == s@.len(),
            1 <= multiplier <= 0x4000_0000,
            pow10(26) == 100_000_000_000_000_000_000_000_000,
            match dot_pos {
                None => {
                    &&& find_dot(s@) >= i
                    &&& all_digits(s@.subrange(0, i as int))
                    &&& acc == digits_val(s@.subrange(0, i as int))
                },
                Some(d) => {
                    &&& d < i
                    &&& find_dot(s@) == d
                    &&& all_digits(s@.subrange(0, d as int))
                    &&& all_digits(s@.subrange(d + 1, i as int))
                    &&& i - d - 1 <= 9
                    &&& acc == digits_val(
                        s@.subrange(0, d as int) + s@.subrange(d + 1, i as int),
                    )
                },
            },
            acc < pow10(26),
        decreases len - i,
    {
        let ghost w = s@;
        let c = s.get_char(i);
        let v = c as u32;
        if v >= 48 && v <= 57 {
            let d: u128 = (v - 48) as u128;
            proof {
                match dot_pos {
                    None => {
                        let pre = w.subrange(0, i as int);
                        let post = w.subrange(0, i + 1);
                        assert(post.drop_last() =~= pre);
                        assert(post.last() == w[i as int]);
                        assert(all_digits(pre));
                        lemma_digits_val_bound(pre);
                        assert(pre.len() <= 25);
                        assert(pow10(pre.len() + 1) <= pow10(26)) by {
                            lemma_pow10_mono(pre.len() + 1, 26);
                        }
                    },
                    Some(dp) => {
                        let whole = w.subrange(0, dp as int) + w.subrange(dp + 1, i as int);
                        let whole1 = w.subrange(0, dp as int) + w.subrange(dp + 1, i + 1);
                        assert(whole1.drop_last() =~= whole);
                        assert(whole1.last() == w[i as int]);
                        assert(all_digits(whole)) by {
                            assert(forall|j: int|
                                0 <= j < whole.len() ==> is_digit_char(#[trigger] whole[j]));
                        }
                        lemma_digits_val_bound(whole);
                        assert(whole.len() <= 25);
                        assert(pow10(whole.len() + 1) <= pow10(26)) by {
                            lemma_pow10_mono(whole.len() + 1, 26);
                        }
                        assert(all_digits(whole1)) by {
                            assert(forall|j: int|
                                0 <= j < whole1.len() ==> is_digit_char(#[trigger] whole1[j]));
                        }
                        lemma_digits_val_bound(whole1);
                    },
                }
            }
            acc = acc * 10 + d;
            if let Some(dp) = dot_pos {
                if i - dp > 9 {
                    proof {
                        assert(frac_part(w).len() > 9) by {
                            assert(frac_part(w) =~= w.skip(dp + 1));
                        }
                    }
                    return None;
                }
            }
        } else if v == 46 {
            // a decimal point
            match dot_pos {
                None => {
                    proof {
                        assert(w[i as int] == '.');
                        assert(find_dot(w) == i) by {
                            lemma_find_dot_at(w, i as int);
                        }
                        assert(w.subrange(i + 1, i + 1) =~= Seq::<char>::empty());
                        assert(w.subrange(0, i as int) + w.subrange(i + 1, i + 1) =~= w.subrange(
                            0,
                            i as int,
                        ));
                    }
                    dot_pos = Some(i);
                },
                Some(dp) => {
                    proof {
                        assert(frac_part(w)[i - dp - 1] == '.') by {
                            assert(frac_part(w) =~= w.skip(dp + 1));
                        }
                        assert(!all_digits(frac_part(w)));
                    }
                    return None;
                },
            }
        } else {
            proof {
                assert(!is_digit_char(w[i as int]) && w[i as int] != '.');
                match dot_pos {
                    None => {
                        assert(find_dot(w) != i);
                        assert(i < find_dot(w) <= w.len());
                        assert(int_part(w)[i as int] == w[i as int]);
                        assert(!all_digits(int_part(w)));
                    },
                    Some(dp) => {
                        assert(frac_part(w)[i - dp - 1] == w[i as int]) by {
                            assert(frac_part(w) =~= w.skip(dp + 1));
                        }
                        assert(!all_digits(frac_part(w)));
                    },
                }
            }
            return None;
        }
        i = i + 1;
    }
    let frac_len: usize = match dot_pos {
        None => 0,
        Some(dp) => len - dp - 1,
    };
    let digits: usize = match dot_pos {
        None => len,
        Some(_) => len - 1,
    };
    proof {
        let w = s@;
        match dot_pos {
            None => {
                assert(find_dot(w) == w.len());
                assert(int_part(w) =~= w.subrange(0, len as int));
                assert(frac_part(w) =~= Seq::<char>::empty());
                assert(int_part(w) + frac_part(w) =~= w.subrange(0, len as int));
            },
            Some(dp) => {
                assert(int_part(w) =~= w.subrange(0, dp as int));
                assert(frac_part(w) =~= w.subrange(dp + 1, len as int));
            },
        }
        lemma_digits_val_concat(int_part(w), frac_part(w));
    }
    if digits == 0 {
        return None;
    }
    let divisor: u64 = pow10_u64(frac_len);
    proof {
        let w = s@;
        assert(acc == dec_num(w));
        assert(acc * (multiplier as u128) < pow10(26) * 0x4000_0001) by (nonlinear_arith)
            requires
                acc < pow10(26),
                multiplier <= 0x4000_0000,
                acc >= 0,
        ;
        assert(pow10(26) * 0x4000_0001 < u128::MAX);
        assert(divisor >= 1);
    }
    let wide: u128 = acc * (multiplier as u128);
    let scaled: u128 = wide / (divisor as u128);
    let zero = acc == 0;
    if scaled > u64::MAX as u128 {
        Some((u64::MAX, true, zero))
    } else {
        Some((scaled as u64, false, zero))
    }
}

/// Binary multiplier for a memory unit letter, if it is one of `K`, `M`, `G`.
pub open spec fn memory_multiplier(c: char) -> Option<int> {
    if c == 'K' {
        Some(1024)
    } else if c == 'M' {
        Some((1024 * 1024) as int)
    } else if c == 'G' {
        Some((1024 * 1024 * 1024) as int)
    } else {
        None
    }
}

/// What parsing a memory string yields: a decimal numeral followed by
/// `K|Ki|M|Mi|G|Gi`, scaled by the binary multiplier.
pub open spec fn spec_parse_memory_text(s: Seq<char>) -> Result<u64, LimitError> {
    let unit_at = if s.len() >= 2 && s.last() == 'i' {
        s.len() - 2
    } else {
        s.len() - 1
    };
    if s.len() >= 1 && memory_multiplier(s[unit_at]) is Some && is_decimal_seq(
        s.take(unit_at),
    ) {
        Ok(capped(scaled_dec(s.take(unit_at), memory_multiplier(s[unit_at])->0)) as u64)
    } else {
        Err(LimitError::InvalidFormat)
    }
}

/// What parsing a memory limit yields.  Bare numbers are GiB.
pub open spec fn spec_parse_memory_limit(v: LimitValue) -> Result<u64, LimitError> {
    match v {
        LimitValue::Number(s) => if is_decimal_seq(s@) {
            Ok(capped(scaled_dec(s@, (1024 * 1024 * 1024) as int)) as u64)
        } else {
            Err(LimitError::InvalidNumber)
        },
        LimitValue::Text(s) => spec_parse_memory_text(s@),
        LimitValue::Unsupported => Err(LimitError::UnsupportedType),
    }
}

/// Parse a memory limit into bytes.
///
/// A bare number counts GiB; a string takes a unit among `K|Ki|M|Mi|G|Gi`
/// with the binary multiplier.
pub fn parse_memory_limit(memory_limit: &LimitValue) -> (r: Result<u64, LimitError>)
    ensures
        r == spec_parse_memory_limit(*memory_limit),
{
    match memory_limit {
        LimitValue::Number(s) => {
            match parse_decimal_scaled(s.as_str(), 0x4000_0000) {
                Some(v) => Ok(v),
                None => Err(LimitError::InvalidNumber),
            }
        },
        LimitValue::Text(s) => parse_memory_text(s.as_str()),
        LimitValue::Unsupported => Err(LimitError::UnsupportedType),
    }
}

fn memory_unit_multiplier(c: char) -> (r: Option<u64>)
    ensures
        r is Some <==> memory_multiplier(c) is Some,
        r is Some ==> r->0 == memory_multiplier(c)->0,
{
    if c == 'K' {
        Some(1024)
    } else if c == 'M' {
        Some(1_048_576)
    } else if c == 'G' {
        Some(1_073_741_824)
    } else {
        None
    }
}

fn parse_memory_text(s: &str) -> (r: Result<u64, LimitError>)
    ensures
        r == spec_parse_memory_text(s@),
{
    let len: usize = s.unicode_len();
    if len == 0 {
        return Err(LimitError::InvalidFormat);
    }
    let unit_at: usize = if len >= 2 && s.get_char(len - 1) == 'i' {
        len - 2
    } else {
        len - 1
    };
    let mult = match memory_unit_multiplier(s.get_char(unit_at)) {
        Some(m) => m,
        None => {
            return Err(LimitError::InvalidFormat);
        },
    };
    let number = s.substring_char(0, unit_at);
    proof {
        assert(number@ =~= s@.take(unit_at as int));
    }
    match parse_decimal_scaled(number, mult) {
        Some(v) => Ok(v),
        None => Err(LimitError::InvalidFormat),
    }
}

/// What parsing a CPU limit yields, in nanocpus.
///
/// A bare number must be positive and fit `u64` nanocpus; a string is
/// scaled and saturates.
pub open spec fn spec_parse_cpu_limit(v: LimitValue) -> Result<u64, LimitError> {
    match v {
        LimitValue::Number(s) => if !is_decimal_seq(s@) {
            Err(LimitError::InvalidNumber)
        } else if dec_num(s@) == 0 || scaled_dec(s@, 1_000_000_000) > u64::MAX {
            Err(LimitError::OutOfRange)
        } else {
            Ok(scaled_dec(s@, 1_000_000_000) as u64)
        },
        LimitValue::Text(s) => if is_decimal_seq(s@) {
            Ok(capped(scaled_dec(s@, 1_000_000_000)) as u64)
        } else {
            Err(LimitError::InvalidFormat)
        },
        LimitValue::Unsupported => Err(LimitError::UnsupportedType),
    }
}

/// Parse a CPU limit (cores) into nanocpus.
pub fn parse_cpu_limit(cpu_limit: &LimitValue) -> (r: Result<u64, LimitError>)
    ensures
        r == spec_parse_cpu_limit(*cpu_limit),
{
    match cpu_limit {
        LimitValue::Number(s) => {
            match parse_decimal_full(s.as_str(), 1_000_000_000) {
                Some((v, saturated, zero)) => {
                    if zero || saturated {
                        Err(LimitError::OutOfRange)
                    } else {
                        Ok(v)
                    }
                },
                None => Err(LimitError::InvalidNumber),
            }
        },
        LimitValue::Text(s) => {
            match parse_decimal_scaled(s.as_str(), 1_000_000_000) {
                Some(v) => Ok(v),
                None => Err(LimitError::InvalidFormat),
            }
        },
        LimitValue::Unsupported => Err(LimitError::UnsupportedType),
    }
}

/// Decimal multiplier of a network-rate unit letter.
pub open spec fn rate_multiplier(c: char) -> Option<int> {
    if c == 'K' {
        Some(1_000)
    } else if c == 'M' {
        Some(1_000_000)
    } else if c == 'G' {
        Some(1_000_000_000)
    } else {
        None
    }
}

/// What parsing a network rate yields: a decimal numeral followed by
/// `Kbps|Mbps|Gbps`, scaled by the decimal multiplier.
pub open spec fn spec_parse_network_rate(s: Seq<char>) -> Result<u64, LimitError> {
    if s.len() >= 4 && s[s.len() - 3] == 'b' && s[s.len() - 2] == 'p' && s[s.len() - 1] == 's'
        && rate_multiplier(s[s.len() - 4]) is Some && is_decimal_seq(s.take(s.len() - 4)) {
        Ok(capped(scaled_dec(s.take(s.len() - 4), rate_multiplier(s[s.len() - 4])->0)) as u64)
    } else {
        Err(LimitError::InvalidFormat)
    }
}

/// Parse a network rate such as `"10Mbps"` into bits per second.
pub fn parse_network_rate(rate: &str) -> (r: Result<u64, LimitError>)
    ensures
        r == spec_parse_network_rate(rate@),
{
    let len: usize = rate.unicode_len();
    if len < 4 {
        return Err(LimitError::InvalidFormat);
    }
    if rate.get_char(len - 3) != 'b' || rate.get_char(len - 2) != 'p' || rate.get_char(len - 1)
        != 's' {
        return Err(LimitError::InvalidFormat);
    }
    let unit = rate.get_char(len - 4);
    let mult: u64 = if unit == 'K' {
        1_000
    } else if unit == 'M' {
        1_000_000
    } else if unit == 'G' {
        1_000_000_000
    } else {
        return Err(LimitError::InvalidFormat);
    };
    let number = rate.substring_char(0, len - 4);
    proof {
        assert(number@ =~= rate@.take(len - 4));
    }
    match parse_decimal_scaled(number, mult) {
        Some(v) => Ok(v),
        None => Err(LimitError::InvalidFormat),
    }
}

proof fn lemma_pow10_mono(a: nat, b: nat)
    requires
        a <= b,
    ensures
        pow10(a) <= pow10(b),
    decreases b,
{
    if a < b {
        lemma_pow10_mono(a, (b - 1) as nat);
        assert(pow10(b) == 10 * pow10((b - 1) as nat));
    }
}

proof fn lemma_find_dot_at(s: Seq<char>, i: int)
    requires
        0 <= i < s.len(),
        s[i] == '.',
        forall|j: int| 0 <= j < i ==> s[j] != '.',
    ensures
        find_dot(s) == i,
    decreases i,
{
    if i > 0 {
        assert(s[0] != '.');
        assert forall|j: int| 0 <= j < i - 1 implies s.skip(1)[j] != '.' by {
            assert(s.skip(1)[j] == s[j + 1]);
        }
        assert(s.skip(1)[i - 1] == s[i]);
        lemma_find_dot_at(s.skip(1), i - 1);
    }
}

} // verus!
