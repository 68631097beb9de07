//! Parsing of configuration values: a scale height, and an override of the
//! form `DIR:HEIGHT`.

use crate::paths::{path_components, split_components};
use vstd::prelude::*;

verus! {

/// Why a configuration value was rejected.
#[derive(Clone, Copy, Debug, PartialEq, Eq, Structural)]
pub enum ParseError {
    /// The height is not a decimal number that fits the parameter type.
    InvalidNumber,
    /// An override lacks the `:` between directory and height.
    MissingSeparator,
}

/// `c` is a decimal digit.
pub open spec fn is_digit(c: char) -> bool {
    48 <= c as u32 <= 57
}

/// The numeric value of a decimal digit.
pub open spec fn digit_val(c: char) -> int {
    c as u32 - 48
}

/// Every character of `s` is a decimal digit.
pub open spec fn all_digits(s: Seq<char>) -> bool {
    forall|i: int| 0 <= i < s.len() ==> is_digit(#[trigger] s[i])
}

/// The value of a digit string read in base ten.
pub open spec fn digits_val(s: Seq<char>) -> int
    decreases s.len(),
{
    if s.len() == 0 {
        0
    } else {
        digits_val(s.drop_last()) * 10 + digit_val(s.last())
    }
}

/// The digits of a numeral: the string with one optional leading plus sign
/// removed.
pub open spec fn numeral_body(s: Seq<char>) -> Seq<char> {
    if s.len() > 0 && s[0] == '+' {
        s.skip(1)
    } else {
        s
    }
}

/// `s` is a numeral the scale parser accepts: an optional plus sign, then one
/// or more decimal digits, with a value that fits the parameter type.
pub open spec fn is_u32_numeral(s: Seq<char>) -> bool {
    let d = numeral_body(s);
    d.len() > 0 && all_digits(d) && digits_val(d) <= u32::MAX
}

/// The value of an accepted numeral.
pub open spec fn numeral_val(s: Seq<char>) -> int {
    digits_val(numeral_body(s))
}

proof fn lemma_digits_val_nonneg(s: Seq<char>)
    requires
        all_digits(s),
    ensures
        digits_val(s) >= 0,
    decreases s.len(),
{
    if s.len() > 0 {
        lemma_digits_val_nonneg(s.drop_last());
    }
}

proof fn lemma_digits_val_monotone(s: Seq<char>, i: int, j: int)
    requires
        all_digits(s),
        0 <= i <= j <= s.len(),
    ensures
        digits_val(s.take(i)) <= digits_val(s.take(j)),
    decreases j - i,
{
    if i < j {
        lemma_digits_val_monotone(s, i, j - 1);
        assert(s.take(j).drop_last() =~= s.take(j - 1));
        assert(all_digits(s.take(j - 1)));
        lemma_digits_val_nonneg(s.take(j - 1));
    }
}

fn parse_u32_value(s: &str, start: usize) -> (r: Result<u32, ParseError>)
    requires
        start as int <= s@.len(),
    ensures
        ({
            let d = s@.skip(start as int);
            match r {
                Ok(v) => d.len() > 0 && all_digits(d) && digits_val(d) <= u32::MAX && v as int
                    == digits_val(d),
                Err(e) => e == ParseError::InvalidNumber && !(d.len() > 0 && all_digits(d)
                    && digits_val(d) <= u32::MAX),
            }
        }),
{
    let ghost dg = s@.skip(start as int);
    let n = s.unicode_len();
    if start == n {
        return Err(ParseError::InvalidNumber);
    }
    let mut v: u64 = 0;
    let mut i = start;
    while i < n
        invariant
            start <= i <= n,
            n == s@.len(),
            dg == s@.skip(start as int),
            forall|j: int| 0 <= j < i - start ==> is_digit(#[trigger] dg[j]),
            v <= u32::MAX,
            v as int == digits_val(dg.take(i - start)),
        decreases n - i,
    {
        let c = s.get_char(i);
        let cv = c as u32;
        proof {
            assert(dg[i - start] == s@[i as int]);
        }
        if cv < 48 || cv > 57 {
            proof {
                assert(!is_digit(dg[i - start]));
            }
            return Err(ParseError::InvalidNumber);
        }
        let d = (cv - 48) as u64;
        v = v * 10 + d;
        i = i + 1;
        proof {
            assert(dg.take(i - start).drop_last() =~= dg.take(i - start - 1));
            assert(dg.take(i - start).last() == dg[i - start - 1]);
        }
        if v > 0xffff_ffff {
            proof {
                if all_digits(dg) {
                    lemma_digits_val_monotone(dg, i - start, dg.len() as int);
                    assert(dg.take(dg.len() as int) =~= dg);
                }
            }
            return Err(ParseError::InvalidNumber);
        }
    }
    proof {
        assert(dg.take(n - start) =~= dg);
    }
    Ok(v as u32)
}

/// Parse a scale height value: an optional plus sign and decimal digits,
/// rejected when malformed or too large for the parameter type.
pub fn parse_scale(s: &str) -> (r: Result<u32, ParseError>)
    ensures
        match r {
            Ok(v) => is_u32_numeral(s@) && v as int == numeral_val(s@),
            Err(e) => !is_u32_numeral(s@) && e == ParseError::InvalidNumber,
        },
{
    let n = s.unicode_len();
    let start: usize = if n > 0 && s.get_char(0) == '+' {
        1
    } else {
        0
    };
    proof {
        assert(numeral_body(s@) =~= s@.skip(start as int));
    }
    parse_u32_value(s, start)
}

/// `s` holds a separating colon somewhere.
pub open spec fn has_colon(s: Seq<char>) -> bool {
    exists|i: int| 0 <= i < s.len() && s[i] == ':'
}

/// The position of the first colon of `s`.
pub open spec fn first_colon(s: Seq<char>) -> int
    decreases s.len(),
{
    if s.len() == 0 {
        0
    } else if s[0] == ':' {
        0
    } else {
        1 + first_colon(s.skip(1))
    }
}

proof fn lemma_first_colon_at(s: Seq<char>, k: int)
    requires
        0 <= k < s.len(),
        s[k] == ':',
        forall|j: int| 0 <= j < k ==> s[j] != ':',
    ensures
        has_colon(s),
        first_colon(s) == k,
    decreases k,
{
    if k > 0 {
        let t = s.skip(1);
        assert(forall|j: int| 0 <= j < k - 1 ==> t[j] == s[j + 1] && t[j] != ':');
        lemma_first_colon_at(t, k - 1);
    }
}

/// Parse an override of the form `DIR:HEIGHT`: the part before the first
/// colon is split into the directory-prefix key's components, the part after
/// it is parsed as a height. Rejected when the colon is missing or the height
/// is not an accepted numeral.
pub fn parse_override(s: &str) -> (r: Result<(Vec<String>, u32), ParseError>)
    ensures
        match r {
            Ok(kv) => {
                &&& has_colon(s@)
                &&& kv.0.deep_view() == path_components(s@.take(first_colon(s@)))
                &&& is_u32_numeral(s@.skip(first_colon(s@) + 1))
                &&& kv.1 as int == numeral_val(s@.skip(first_colon(s@) + 1))
            },
            Err(ParseError::MissingSeparator) => !has_colon(s@),
            Err(ParseError::InvalidNumber) => has_colon(s@) && !is_u32_numeral(
                s@.skip(first_colon(s@) + 1),
            ),
        },
{
    let n = s.unicode_len();
    let mut k: usize = 0;
    while k < n && s.get_char(k) != ':'
        invariant
            0 <= k <= n,
            n == s@.len(),
            forall|j: int| 0 <= j < k ==> s@[j] != ':',
        decreases n - k,
    {
        k = k + 1;
    }
    if k == n {
        proof {
            assert(!has_colon(s@));
        }
        return Err(ParseError::MissingSeparator);
    }
    proof {
        lemma_first_colon_at(s@, k as int);
    }
    let num = s.substring_char(k + 1, n);
    proof {
        assert(num@ =~= s@.skip(k + 1));
        assert(numeral_body(num@) =~= num@.skip(if num@.len() > 0 && num@[0] == '+' {
            1int
        } else {
            0int
        }));
    }
    let height = match parse_scale(num) {
        Ok(v) => v,
        Err(_) => {
            return Err(ParseError::InvalidNumber);
        },
    };
    let dir = s.substring_char(0, k);
    let key = split_components(dir);
    proof {
        assert(dir@ =~= s@.take(k as int));
    }
    Ok((key, height))
}

} // verus!
