//! Decimal rendering of run numbers and counters.

use vstd::prelude::*;
use vstd::string::StringExecFns;

verus! {

/// The digit character for `d` in `0..=9`.
pub open spec fn spec_digit(d: int) -> char {
    if d == 0 {
        '0'
    } else if d == 1 {
        '1'
    } else if d == 2 {
        '2'
    } else if d == 3 {
        '3'
    } else if d == 4 {
        '4'
    } else if d == 5 {
        '5'
    } else if d == 6 {
        '6'
    } else if d == 7 {
        '7'
    } else if d == 8 {
        '8'
    } else {
        '9'
    }
}

/// The decimal rendering of `n`, most significant digit first, without
/// leading zeros except for zero itself.
pub open spec fn spec_udec(n: int) -> Seq<char>
    decreases n,
{
    if n < 10 {
        seq![spec_digit(n)]
    } else {
        spec_udec(n / 10).push(spec_digit(n % 10))
    }
}

/// Render `n` in decimal.
pub fn u32_to_string(n: u32) -> (r: String)
    ensures
        r@ == spec_udec(n as int),
    decreases n,
{
    if n < 10 {
        let s = digit_str(n as u8);
        s.to_owned()
    } else {
        let mut s = u32_to_string(n / 10);
        let d = digit_str((n % 10) as u8);
        proof {
            assert(s@.push(spec_digit(n as int % 10)) =~= s@ + d@);
        }
        s.append(d);
        s
    }
}

/// The one-character string for a digit.
fn digit_str(d: u8) -> (r: &'static str)
    requires
        d <= 9,
    ensures
        r@ == seq![spec_digit(d as int)],
{
    proof {
        reveal_strlit("0");
        reveal_strlit("1");
        reveal_strlit("2");
        reveal_strlit("3");
        reveal_strlit("4");
        reveal_strlit("5");
        reveal_strlit("6");
        reveal_strlit("7");
        reveal_strlit("8");
        reveal_strlit("9");
    }
    if d == 0 {
        "0"
    } else if d == 1 {
        "1"
    } else if d == 2 {
        "2"
    } else if d == 3 {
        "3"
    } else if d == 4 {
        "4"
    } else if d == 5 {
        "5"
    } else if d == 6 {
        "6"
    } else if d == 7 {
        "7"
    } else if d == 8 {
        "8"
    } else {
        "9"
    }
}

/// The decimal rendering of `n` left-padded with zeros to four places, as
/// the acquisition names its runs; wider numbers keep all their digits.
pub open spec fn spec_padded4(n: int) -> Seq<char> {
    if n < 10 {
        seq!['0', '0', '0'] + spec_udec(n)
    } else if n < 100 {
        seq!['0', '0'] + spec_udec(n)
    } else if n < 1000 {
        seq!['0'] + spec_udec(n)
    } else {
        spec_udec(n)
    }
}

/// Render `n` zero-padded to four places.
pub fn u32_to_padded4(n: u32) -> (r: String)
    ensures
        r@ == spec_padded4(n as int),
{
    proof {
        reveal_strlit("000");
        reveal_strlit("00");
        reveal_strlit("0");
        reveal_strlit("");
    }
    let mut s: String = if n < 10 {
        "000".to_owned()
    } else if n < 100 {
        "00".to_owned()
    } else if n < 1000 {
        "0".to_owned()
    } else {
        "".to_owned()
    };
    let d = u32_to_string(n);
    s.append(d.as_str());
    proof {
        assert(seq!['0', '0', '0'] =~= "000"@);
        assert(seq!['0', '0'] =~= "00"@);
        assert(seq!['0'] =~= "0"@);
        assert(Seq::<char>::empty() + spec_udec(n as int) =~= spec_udec(n as int));
    }
    s
}

} // verus!
