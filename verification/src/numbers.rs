//! Decimal numerals: the mathematical value of a digit string, parsing with
//! exact error reporting, and formatting of unsigned integers.

use vstd::prelude::*;

verus! {

/// Why a numeric field of a record failed to parse.
#[derive(Clone, Copy, Debug, PartialEq, Eq, Structural)]
pub enum IntParseError {
    /// The value was empty.
    Empty,
    /// A character was not a decimal digit.
    InvalidDigit,
    /// The value does not fit in the target integer type.
    PosOverflow,
}

pub open spec fn is_digit(c: char) -> bool {
    '0' <= c && c <= '9'
}

pub open spec fn digit_val(c: char) -> nat {
    (c as nat - '0' as nat) as nat
}

pub open spec fn all_digits(s: Seq<char>) -> bool {
    forall|i: int| 0 <= i < s.len() ==> is_digit(s[i])
}

/// Numeric value of a digit string, most significant digit first.
pub open spec fn dec_value(s: Seq<char>) -> nat
    decreases s.len(),
{
    if s.len() == 0 {
        0
    } else {
        dec_value(s.drop_last()) * 10 + digit_val(s.last())
    }
}

pub open spec fn dec_digit_char(d: nat) -> char {
    ((48 + d) as u8) as char
}

/// Canonical decimal numeral of `n`: no leading zeros, at least one digit.
pub open spec fn dec_chars(n: nat) -> Seq<char>
    decreases n,
{
    if n < 10 {
        seq![dec_digit_char(n)]
    } else {
        dec_chars(n / 10).push(dec_digit_char(n % 10))
    }
}

/// The canonical numeral consists of digits and denotes `n`.
pub proof fn lemma_dec_chars_value(n: nat)
    ensures
        dec_chars(n).len() >= 1,
        all_digits(dec_chars(n)),
        dec_value(dec_chars(n)) == n,
    decreases n,
{
    if n < 10 {
        let s = dec_chars(n);
        assert(s.drop_last() =~= Seq::<char>::empty());
        assert(dec_value(s) == dec_value(Seq::<char>::empty()) * 10 + digit_val(s.last()));
    } else {
        lemma_dec_chars_value(n / 10);
        let s = dec_chars(n);
        assert(s.drop_last() =~= dec_chars(n / 10));
        assert(dec_value(s) == (n / 10) * 10 + n % 10);
        assert((n / 10) * 10 + n % 10 == n) by (nonlinear_arith);
        assert forall|i: int| 0 <= i < s.len() implies is_digit(s[i]) by {
            if i < s.len() - 1 {
                assert(s[i] == dec_chars(n / 10)[i]);
            }
        }
    }
}

/// Parsing as `u64`: empty and non-digit inputs are rejected, and so are
/// values over `u64::MAX`.
pub open spec fn spec_parse_u64(s: Seq<char>) -> Result<u64, IntParseError> {
    if s.len() == 0 {
        Err(IntParseError::Empty)
    } else if !all_digits(s) {
        Err(IntParseError::InvalidDigit)
    } else if dec_value(s) > u64::MAX {
        Err(IntParseError::PosOverflow)
    } else {
        Ok(dec_value(s) as u64)
    }
}

/// Parsing as `usize` differs from `u64` only in the overflow bound.
pub open spec fn spec_parse_usize(s: Seq<char>) -> Result<usize, IntParseError> {
    if s.len() == 0 {
        Err(IntParseError::Empty)
    } else if !all_digits(s) {
        Err(IntParseError::InvalidDigit)
    } else if dec_value(s) > usize::MAX {
        Err(IntParseError::PosOverflow)
    } else {
        Ok(dec_value(s) as usize)
    }
}

/// Appending a digit multiplies the value by ten and adds the digit.
proof fn lemma_dec_value_push(s: Seq<char>, c: char)
    ensures
        dec_value(s.push(c)) == dec_value(s) * 10 + digit_val(c),
{
    assert(s.push(c).drop_last() =~= s);
}

pub fn parse_u64(s: &str) -> (r: Result<u64, IntParseError>)
    ensures
        r == spec_parse_u64(s@),
{
    let len = s.unicode_len();
    if len == 0 {
        return Err(IntParseError::Empty);
    }
    let mut acc: u64 = 0;
    let mut over: bool = false;
    let mut i: usize = 0;
    while i < len
        invariant
            0 <= i <= len,
            len == s@.len(),
            all_digits(s@.take(i as int)),
            !over ==> acc == dec_value(s@.take(i as int)),
            over ==> dec_value(s@.take(i as int)) > u64::MAX,
        decreases len - i,
    {
        let c = s.get_char(i);
        if c < '0' || c > '9' {
            assert(!all_digits(s@));
            return Err(IntParseError::InvalidDigit);
        }
        let d: u64 = (c as u32 - 48) as u64;
        proof {
            assert(digit_val(c) == d);
            assert(s@.take(i + 1).drop_last() =~= s@.take(i as int));
            assert(dec_value(s@.take(i + 1)) == dec_value(s@.take(i as int)) * 10 + d);
        }
        if over {
            proof {
                assert(dec_value(s@.take(i as int)) * 10 + d > u64::MAX) by (nonlinear_arith)
                    requires
                        dec_value(s@.take(i as int)) > u64::MAX,
                        d >= 0,
                ;
            }
        } else if acc > u64::MAX / 10 || (acc == u64::MAX / 10 && d > u64::MAX % 10) {
            over = true;
            proof {
                assert(acc * 10 + d > u64::MAX) by (nonlinear_arith)
                    requires
                        acc > u64::MAX / 10 || (acc == u64::MAX / 10 && d > u64::MAX % 10),
                        d < 10,
                        acc <= u64::MAX,
                ;
            }
        } else {
            proof {
                assert(acc * 10 + d <= u64::MAX) by (nonlinear_arith)
                    requires
                        acc <= u64::MAX / 10,
                        acc == u64::MAX / 10 ==> d <= u64::MAX % 10,
                        d < 10,
                ;
            }
            acc = acc * 10 + d;
        }
        i += 1;
    }
    proof {
        assert(s@.take(len as int) =~= s@);
    }
    if over {
        Err(IntParseError::PosOverflow)
    } else {
        Ok(acc)
    }
}

pub fn parse_usize(s: &str) -> (r: Result<usize, IntParseError>)
    ensures
        r == spec_parse_usize(s@),
{
    match parse_u64(s) {
        Ok(v) => {
            if v <= usize::MAX as u64 {
                Ok(v as usize)
            } else {
                Err(IntParseError::PosOverflow)
            }
        },
        Err(e) => Err(e),
    }
}

/// Decimal numeral of `n`, as a string.
pub fn u64_to_string(n: u64) -> (r: String)
    ensures
        r@ == dec_chars(n as nat),
{
    let mut digits: Vec<char> = Vec::new();
    let mut m: u64 = n;
    loop
        invariant
            digits@.len() == 0 ==> m == n,
            digits@.len() > 0 ==> m > 0 && dec_chars(n as nat) == dec_chars(m as nat)
                + digits@.reverse(),
        decreases m,
    {
        let ghost m0 = m as nat;
        let ghost prev = digits@;
        let d: u64 = m % 10;
        let c = (48u8 + d as u8) as char;
        digits.push(c);
        m = m / 10;
        proof {
            assert(c == dec_digit_char(m0 % 10));
            assert(digits@.reverse() =~= seq![c] + prev.reverse());
            if m0 < 10 {
                assert(dec_chars(m0) =~= seq![c]);
            } else {
                assert(dec_chars(m0) =~= dec_chars(m0 / 10) + seq![c]);
            }
            if prev.len() == 0 {
                assert(dec_chars(n as nat) == dec_chars(m0));
            } else {
                assert(dec_chars(n as nat) == dec_chars(m0) + prev.reverse());
            }
            if m0 < 10 {
                assert(dec_chars(n as nat) =~= digits@.reverse());
            } else {
                assert(dec_chars(n as nat) =~= dec_chars(m as nat) + digits@.reverse());
            }
        }
        if m == 0 {
            proof {
                assert(m0 < 10);
                assert(dec_chars(n as nat) == digits@.reverse());
            }
            break;
        }
    }
    proof {
        assert(dec_chars(n as nat) == digits@.reverse());
    }
    let mut out = String::new();
    let mut i: usize = digits.len();
    proof {
        assert(out@ =~= digits@.reverse().take(0));
    }
    while i > 0
        invariant
            0 <= i <= digits@.len(),
            dec_chars(n as nat) == digits@.reverse(),
            out@ == digits@.reverse().take(digits@.len() - i),
        decreases i,
    {
        let c = digits[i - 1];
        crate::text::push_char(&mut out, c);
        i -= 1;
        proof {
            assert(out@ =~= digits@.reverse().take(digits@.len() - i));
        }
    }
    proof {
        assert(out@ =~= digits@.reverse());
    }
    out
}

} // verus!
