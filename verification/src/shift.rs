//! The time-shift parser: a compact expression `<integer><unit>` with
//! unit one of `s`, `m`, `h`, `d`, `w`, turned into a number of seconds.

use vstd::prelude::*;
use vstd::string::StringSliceAdditionalSpecFns;

verus! {

/// A malformed shift expression: empty, no recognized trailing unit letter,
/// a prefix that is not a plain decimal integer, or a value too large to
/// count in seconds in a machine word.
#[derive(Clone, Copy, Debug, PartialEq, Eq, Structural)]
pub struct InvalidShift;

/// A parsed shift expression: the count together with its unit
/// (seconds, minutes, hours, days, weeks).
#[derive(Clone, Copy, Debug, PartialEq, Eq, Structural)]
pub enum TimeType {
    S(u64),
    M(u64),
    H(u64),
    D(u64),
    W(u64),
}

pub open spec fn is_digit_byte(b: u8) -> bool {
    48 <= b && b <= 57
}

pub open spec fn all_digit_bytes(s: Seq<u8>) -> bool {
    forall|i: int| 0 <= i < s.len() ==> is_digit_byte(#[trigger] s[i])
}

/// The number written by a sequence of decimal digit bytes, most
/// significant digit first.
pub open spec fn digits_value(s: Seq<u8>) -> int
    decreases s.len(),
{
    if s.len() == 0 {
        0
    } else {
        digits_value(s.drop_last()) * 10 + (s.last() - 48)
    }
}

pub open spec fn is_unit_byte(b: u8) -> bool {
    b == 115 || b == 109 || b == 104 || b == 100 || b == 119
}

/// How many seconds one step of the given unit letter lasts
/// (zero for an unrecognized letter).
pub open spec fn unit_seconds(b: u8) -> int {
    if b == 115 {
        1
    } else if b == 109 {
        60
    } else if b == 104 {
        3600
    } else if b == 100 {
        86400
    } else if b == 119 {
        604800
    } else {
        0
    }
}

/// What a shift expression, given as its UTF-8 bytes, denotes: the count and
/// unit when the text is `<digits><unit>` with a count that fits in a `u64`,
/// and nothing otherwise.
pub open spec fn time_type_of(s: Seq<u8>) -> Option<TimeType> {
    if s.len() < 2 {
        None
    } else {
        let digits = s.drop_last();
        let u = s.last();
        if !all_digit_bytes(digits) || digits_value(digits) > u64::MAX {
            None
        } else if u == 115 {
            Some(TimeType::S(digits_value(digits) as u64))
        } else if u == 109 {
            Some(TimeType::M(digits_value(digits) as u64))
        } else if u == 104 {
            Some(TimeType::H(digits_value(digits) as u64))
        } else if u == 100 {
            Some(TimeType::D(digits_value(digits) as u64))
        } else if u == 119 {
            Some(TimeType::W(digits_value(digits) as u64))
        } else {
            None
        }
    }
}

pub open spec fn count_of(t: TimeType) -> u64 {
    match t {
        TimeType::S(n) => n,
        TimeType::M(n) => n,
        TimeType::H(n) => n,
        TimeType::D(n) => n,
        TimeType::W(n) => n,
    }
}

pub open spec fn factor_of(t: TimeType) -> int {
    match t {
        TimeType::S(_) => 1,
        TimeType::M(_) => 60,
        TimeType::H(_) => 3600,
        TimeType::D(_) => 86400,
        TimeType::W(_) => 604800,
    }
}

/// The number of seconds a shift expression denotes: the count scaled by the
/// unit's seconds factor, when the expression is well formed and the scaled
/// value fits in a `u64`.
pub open spec fn shift_seconds_of(s: Seq<u8>) -> Option<u64> {
    match time_type_of(s) {
        None => None,
        Some(t) => if count_of(t) * factor_of(t) <= u64::MAX {
            Some((count_of(t) * factor_of(t)) as u64)
        } else {
            None
        },
    }
}

proof fn lemma_digits_value_nonneg(s: Seq<u8>)
    requires
        all_digit_bytes(s),
    ensures
        digits_value(s) >= 0,
    decreases s.len(),
{
    if s.len() > 0 {
        assert(all_digit_bytes(s.drop_last()));
        lemma_digits_value_nonneg(s.drop_last());
    }
}

/// A prefix of a digit string never writes a larger number than the whole.
proof fn lemma_digits_value_prefix(s: Seq<u8>, k: int)
    requires
        all_digit_bytes(s),
        0 <= k <= s.len(),
    ensures
        digits_value(s.subrange(0, k)) <= digits_value(s),
    decreases s.len(),
{
    if k == s.len() {
        assert(s.subrange(0, k) =~= s);
    } else {
        let d = s.drop_last();
        assert(all_digit_bytes(d));
        assert(s.subrange(0, k) =~= d.subrange(0, k));
        lemma_digits_value_prefix(d, k);
        lemma_digits_value_nonneg(d);
    }
}

impl TimeType {
    /// Parses a shift expression: decimal digits followed by one unit letter.
    pub fn from_str(s: &str) -> (r: Result<TimeType, InvalidShift>)
        ensures
            r matches Ok(t) ==> time_type_of(s.spec_bytes()) == Some(t),
            r is Err <==> time_type_of(s.spec_bytes()) is None,
    {
        let b = s.as_bytes();
        let n = b.len();
        if n < 2 {
            return Err(InvalidShift);
        }
        let ghost digits = s.spec_bytes().drop_last();
        assert(digits =~= b@.subrange(0, n - 1));
        let unit = b[n - 1];
        let mut acc: u64 = 0;
        let mut i: usize = 0;
        while i < n - 1
            invariant
                2 <= n == b@.len(),
                0 <= i <= n - 1,
                b@ == s.spec_bytes(),
                digits == s.spec_bytes().drop_last(),
                digits =~= b@.subrange(0, n - 1),
                all_digit_bytes(digits.subrange(0, i as int)),
                acc == digits_value(digits.subrange(0, i as int)),
            decreases n - 1 - i,
        {
            let d = b[i];
            if d < 48 || d > 57 {
                assert(digits[i as int] == d && !is_digit_byte(digits[i as int]));
                assert(!all_digit_bytes(digits));
                return Err(InvalidShift);
            }
            let dv = (d - 48) as u64;
            let ghost pre = digits.subrange(0, i as int);
            let ghost ext = digits.subrange(0, i + 1);
            assert(ext.drop_last() =~= pre && ext.last() == digits[i as int]);
            if acc > (u64::MAX - dv) / 10 {
                // The number written so far no longer fits in a u64, so the
                // whole digit prefix cannot either.
                assert(acc * 10 + dv > u64::MAX) by {
                    assert(acc >= (u64::MAX - dv) / 10 + 1);
                    assert(((u64::MAX - dv) / 10 + 1) * 10 > u64::MAX - dv) by (nonlinear_arith);
                    assert(acc * 10 >= ((u64::MAX - dv) / 10 + 1) * 10) by (nonlinear_arith)
                        requires
                            acc >= (u64::MAX - dv) / 10 + 1,
                    ;
                }
                assert(digits_value(ext) > u64::MAX);
                proof {
                    if all_digit_bytes(digits) {
                        lemma_digits_value_prefix(digits, i + 1);
                    }
                }
                assert(time_type_of(s.spec_bytes()) is None);
                return Err(InvalidShift);
            }
            proof {
                assert(acc <= (u64::MAX - dv) / 10);
                assert(((u64::MAX - dv) / 10) * 10 <= u64::MAX - dv) by (nonlinear_arith);
                assert(acc * 10 <= ((u64::MAX - dv) / 10) * 10) by (nonlinear_arith)
                    requires
                        acc <= (u64::MAX - dv) / 10,
                ;
            }
            acc = acc * 10 + dv;
            assert(acc == digits_value(ext));
            i = i + 1;
        }
        assert(digits.subrange(0, (n - 1) as int) =~= digits);
        let t = if unit == 115 {
            TimeType::S(acc)
        } else if unit == 109 {
            TimeType::M(acc)
        } else if unit == 104 {
            TimeType::H(acc)
        } else if unit == 100 {
            TimeType::D(acc)
        } else if unit == 119 {
            TimeType::W(acc)
        } else {
            return Err(InvalidShift);
        };
        Ok(t)
    }
}

/// Parses a shift expression into its whole length in seconds.
pub fn parse_time(s: &str) -> (r: Result<u64, InvalidShift>)
    ensures
        r matches Ok(secs) ==> shift_seconds_of(s.spec_bytes()) == Some(secs),
        r is Err <==> shift_seconds_of(s.spec_bytes()) is None,
{
    let t = match TimeType::from_str(s) {
        Ok(t) => t,
        Err(e) => {
            return Err(e);
        },
    };
    match t {
        TimeType::S(n) => Ok(n),
        TimeType::M(n) => if n <= u64::MAX / 60 {
            Ok(n * 60)
        } else {
            Err(InvalidShift)
        },
        TimeType::H(n) => if n <= u64::MAX / 3600 {
            Ok(n * 3600)
        } else {
            Err(InvalidShift)
        },
        TimeType::D(n) => if n <= u64::MAX / 86400 {
            Ok(n * 86400)
        } else {
            Err(InvalidShift)
        },
        TimeType::W(n) => if n <= u64::MAX / 604800 {
            Ok(n * 604800)
        } else {
            Err(InvalidShift)
        },
    }
}

/// A shift counted in unsigned seconds, recast as the signed offset the
/// dispatch engine takes; fails only when the count overflows the signed
/// range.
pub fn to_signed_seconds(secs: u64) -> (r: Option<i64>)
    ensures
        secs <= i64::MAX ==> r == Some(secs as i64),
        secs > i64::MAX ==> r is None,
{
    if secs <= i64::MAX as u64 {
        Some(secs as i64)
    } else {
        None
    }
}

/// For every well-formed shift expression, the parsed length in seconds is
/// the digit prefix's value scaled by the unit letter's seconds factor.
pub proof fn lemma_shift_value(digits: Seq<u8>, u: u8)
    requires
        digits.len() > 0,
        all_digit_bytes(digits),
        is_unit_byte(u),
        digits_value(digits) <= u64::MAX,
        digits_value(digits) * unit_seconds(u) <= u64::MAX,
    ensures
        shift_seconds_of(digits.push(u)) == Some((digits_value(digits) * unit_seconds(u)) as u64),
{
    let s = digits.push(u);
    assert(s.drop_last() =~= digits);
    assert(s.last() == u);
    lemma_digits_value_nonneg(digits);
}

/// A shift expression without a digit prefix or without a recognized unit
/// letter denotes nothing.
pub proof fn lemma_shift_invalid(s: Seq<u8>)
    requires
        s.len() < 2 || !is_unit_byte(s.last()) || !all_digit_bytes(s.drop_last()),
    ensures
        shift_seconds_of(s) is None,
{
}

} // verus!
