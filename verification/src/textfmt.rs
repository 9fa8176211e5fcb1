//! Verified integer-to-text conversion: decimal for the signed and
//! unsigned widths the library prints, uppercase hexadecimal for color
//! channels.

use vstd::prelude::*;

verus! {

/// The character for one digit value below sixteen, upper case.
pub open spec fn digit_char(d: int) -> char {
    if d == 0 {
        '0'
    } else if d == 1 {
        '1'
    } else if d == 2 {
        '2'
    } else if d == 3 {
        '3'
    } else if d == 4 {
        '4'
    } else if d == 5 {
        '5'
    } else if d == 6 {
        '6'
    } else if d == 7 {
        '7'
    } else if d == 8 {
        '8'
    } else if d == 9 {
        '9'
    } else if d == 10 {
        'A'
    } else if d == 11 {
        'B'
    } else if d == 12 {
        'C'
    } else if d == 13 {
        'D'
    } else if d == 14 {
        'E'
    } else {
        'F'
    }
}

/// The decimal digits of a non-negative number, most significant first,
/// without leading zeros (zero itself is "0").
pub open spec fn dec_digits(n: int) -> Seq<char>
    decreases n,
{
    if n < 10 {
        seq![digit_char(n)]
    } else {
        dec_digits(n / 10) + seq![digit_char(n % 10)]
    }
}

/// The decimal form of an integer, with a leading minus sign when
/// negative.
pub open spec fn dec_int(v: int) -> Seq<char> {
    if v < 0 {
        seq!['-'] + dec_digits(-v)
    } else {
        dec_digits(v)
    }
}

/// The uppercase hexadecimal digits of a non-negative number, most
/// significant first, without leading zeros or padding.
pub open spec fn hex_digits(n: int) -> Seq<char>
    decreases n,
{
    if n < 16 {
        seq![digit_char(n)]
    } else {
        hex_digits(n / 16) + seq![digit_char(n % 16)]
    }
}

/// One digit value below sixteen as a string.
fn digit_str(d: u8) -> (s: &'static str)
    requires
        d < 16,
    ensures
        s@ == seq![digit_char(d as int)],
{
    proof {
        reveal_strlit("0");
        reveal_strlit("1");
        reveal_strlit("2");
        reveal_strlit("3");
        reveal_strlit("4");
        reveal_strlit("5");
        reveal_strlit("6");
        reveal_strlit("7");
        reveal_strlit("8");
        reveal_strlit("9");
        reveal_strlit("A");
        reveal_strlit("B");
        reveal_strlit("C");
        reveal_strlit("D");
        reveal_strlit("E");
        reveal_strlit("F");
    }
    if d == 0 {
        "0"
    } else if d == 1 {
        "1"
    } else if d == 2 {
        "2"
    } else if d == 3 {
        "3"
    } else if d == 4 {
        "4"
    } else if d == 5 {
        "5"
    } else if d == 6 {
        "6"
    } else if d == 7 {
        "7"
    } else if d == 8 {
        "8"
    } else if d == 9 {
        "9"
    } else if d == 10 {
        "A"
    } else if d == 11 {
        "B"
    } else if d == 12 {
        "C"
    } else if d == 13 {
        "D"
    } else if d == 14 {
        "E"
    } else {
        "F"
    }
}

/// The decimal form of an unsigned number.
pub fn u64_to_string(n: u64) -> (s: String)
    ensures
        s@ == dec_digits(n as int),
    decreases n,
{
    if n < 10 {
        digit_str(n as u8).to_owned()
    } else {
        let mut s = u64_to_string(n / 10);
        s.append(digit_str((n % 10) as u8));
        s
    }
}

/// The decimal form of an unsigned 32-bit number.
pub fn u32_to_string(n: u32) -> (s: String)
    ensures
        s@ == dec_digits(n as int),
{
    u64_to_string(n as u64)
}

/// The decimal form of an unsigned byte.
pub fn u8_to_string(n: u8) -> (s: String)
    ensures
        s@ == dec_digits(n as int),
{
    u64_to_string(n as u64)
}

/// The decimal form of a signed number.
pub fn i64_to_string(v: i64) -> (s: String)
    ensures
        s@ == dec_int(v as int),
{
    if v >= 0 {
        u64_to_string(v as u64)
    } else {
        let mag: u64 = ((-(v + 1)) as u64) + 1;
        proof {
            reveal_strlit("-");
            assert(mag as int == -(v as int));
        }
        let mut s = "-".to_owned();
        s.append(u64_to_string(mag).as_str());
        s
    }
}

/// The decimal form of a signed 32-bit number.
pub fn i32_to_string(v: i32) -> (s: String)
    ensures
        s@ == dec_int(v as int),
{
    i64_to_string(v as i64)
}

/// The uppercase hexadecimal form of a byte, without padding.
pub fn u8_to_hex(n: u8) -> (s: String)
    ensures
        s@ == hex_digits(n as int),
{
    if n < 16 {
        digit_str(n).to_owned()
    } else {
        proof {
            assert(hex_digits(n as int / 16) == seq![digit_char(n as int / 16)]);
        }
        let mut s = digit_str(n / 16).to_owned();
        s.append(digit_str(n % 16));
        s
    }
}

} // verus!
