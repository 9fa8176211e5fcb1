//! The line parser: one shape per line, whitespace-separated tokens, a
//! case-sensitive keyword first.
//!
//! Every step is mirrored by a spec function over the line's characters,
//! so `parse_shape`'s contract pins down, for every input line, both the
//! parsed shape value and the exact error message.

use vstd::prelude::*;
use crate::color::Color;
use crate::errors::GenericError;
use crate::point::Point;
use crate::shapes::canvas::Canvas;
use crate::shapes::circle::Circle;
use crate::shapes::diamond::Diamond;
use crate::shapes::line::Line;
use crate::shapes::polygon::Polygon;
use crate::shapes::rectangle::Rectangle;
use crate::shapes::shape::ShapeValue;
use crate::shapes::square::Square;
use crate::shapes::triangle::Triangle;
use crate::textfmt::dec_digits;
use crate::textfmt::u32_to_string;

verus! {

// ---------------------------------------------------------------------
// Tokenization: whitespace-separated tokens, as Unicode defines
// whitespace.

/// Whether `c` has the Unicode white-space property.
pub open spec fn is_space(c: char) -> bool {
    let u = c as u32;
    ||| (9 <= u <= 13)
    ||| u == 32
    ||| u == 0x85
    ||| u == 0xA0
    ||| u == 0x1680
    ||| (0x2000 <= u <= 0x200A)
    ||| u == 0x2028
    ||| u == 0x2029
    ||| u == 0x202F
    ||| u == 0x205F
    ||| u == 0x3000
}

/// The length of the token at the head of `s`: the run of non-space
/// characters before the first space.
pub open spec fn token_len(s: Seq<char>) -> int
    decreases s.len(),
{
    if s.len() == 0 || is_space(s[0]) {
        0
    } else {
        1 + token_len(s.drop_first())
    }
}

/// The whitespace-separated tokens of `s`, in order.
pub open spec fn tokens_of(s: Seq<char>) -> Seq<Seq<char>>
    decreases s.len(),
    via tokens_of_decreases
{
    if s.len() == 0 {
        Seq::<Seq<char>>::empty()
    } else if is_space(s[0]) {
        tokens_of(s.drop_first())
    } else {
        seq![s.take(token_len(s))] + tokens_of(s.skip(token_len(s)))
    }
}

#[via_fn]
proof fn tokens_of_decreases(s: Seq<char>) {
    lemma_token_len_bounds(s);
}

/// `token_len` is positive on a non-space head and bounded by the
/// length.
proof fn lemma_token_len_bounds(s: Seq<char>)
    ensures
        0 <= token_len(s) <= s.len(),
        s.len() > 0 && !is_space(s[0]) ==> token_len(s) >= 1,
    decreases s.len(),
{
    if s.len() > 0 && !is_space(s[0]) {
        lemma_token_len_bounds(s.drop_first());
    }
}

/// `token_len` is exactly the first space's index: no space before it,
/// and a space (or the end) at it.
proof fn lemma_token_len_is(s: Seq<char>, l: int)
    requires
        0 <= l <= s.len(),
        forall|k: int| 0 <= k < l ==> !is_space(s[k]),
        l == s.len() || is_space(s[l]),
    ensures
        token_len(s) == l,
    decreases s.len(),
{
    if s.len() == 0 || is_space(s[0]) {
        assert(l == 0);
    } else {
        let t = s.drop_first();
        assert(forall|k: int| 0 <= k < l - 1 ==> s.drop_first()[k] == s[k + 1]);
        lemma_token_len_is(t, l - 1);
    }
}

/// Whether `c` has the Unicode white-space property.
fn is_space_exec(c: char) -> (r: bool)
    ensures
        r == is_space(c),
{
    let u = c as u32;
    (9 <= u && u <= 13) || u == 32 || u == 0x85 || u == 0xA0 || u == 0x1680 || (0x2000 <= u && u
        <= 0x200A) || u == 0x2028 || u == 0x2029 || u == 0x202F || u == 0x205F || u == 0x3000
}

/// The views of a token list.
pub open spec fn tok_views(tokens: Seq<String>) -> Seq<Seq<char>> {
    tokens.map_values(|t: String| t@)
}

/// Splits a line into its whitespace-separated tokens.
pub(crate) fn split_into_tokens(line: &str) -> (tokens: Vec<String>)
    ensures
        tok_views(tokens@) == tokens_of(line@),
{
    let n = line.unicode_len();
    let mut tokens: Vec<String> = Vec::new();
    let mut i: usize = 0;
    proof {
        assert(line@.skip(0) =~= line@);
        assert(tok_views(tokens@) =~= Seq::<Seq<char>>::empty());
        assert(tok_views(tokens@) + tokens_of(line@) =~= tokens_of(line@));
    }
    while i < n
        invariant
            i <= n,
            n == line@.len(),
            tokens_of(line@) == tok_views(tokens@) + tokens_of(line@.skip(i as int)),
        decreases n - i,
    {
        let c = line.get_char(i);
        if is_space_exec(c) {
            proof {
                assert(line@.skip(i as int).drop_first() =~= line@.skip(i as int + 1));
                assert(line@.skip(i as int)[0] == line@[i as int]);
            }
            i = i + 1;
        } else {
            let start = i;
            let mut j: usize = i + 1;
            while j < n
                invariant_except_break
                    start < j <= n,
                    n == line@.len(),
                    forall|k: int| start <= k < j ==> !is_space(line@[k]),
                ensures
                    start < j <= n,
                    n == line@.len(),
                    forall|k: int| start <= k < j ==> !is_space(line@[k]),
                    j == n || is_space(line@[j as int]),
                decreases n - j,
            {
                if is_space_exec(line.get_char(j)) {
                    break;
                }
                j = j + 1;
            }
            let token = line.substring_char(start, j).to_owned();
            proof {
                let rest = line@.skip(start as int);
                assert(forall|k: int| 0 <= k < j - start ==> rest[k] == line@[k + start]);
                assert(j - start < rest.len() ==> is_space(rest[j - start]));
                lemma_token_len_is(rest, j - start);
                assert(token@ =~= rest.take(j - start));
                assert(rest.skip(j - start) =~= line@.skip(j as int));
                assert(tokens_of(rest) == seq![token@] + tokens_of(line@.skip(j as int)));
                assert(tok_views(tokens@.push(token)) =~= tok_views(tokens@) + seq![token@]);
                assert(tok_views(tokens@) + (seq![token@] + tokens_of(line@.skip(j as int)))
                    =~= (tok_views(tokens@) + seq![token@]) + tokens_of(line@.skip(j as int)));
            }
            tokens.push(token);
            i = j;
        }
    }
    proof {
        assert(line@.skip(n as int) =~= Seq::<char>::empty());
        assert(tokens_of(line@) =~= tok_views(tokens@));
    }
    tokens
}

// ---------------------------------------------------------------------
// Numeric tokens, with the exact acceptance and failure behavior of the
// standard library's radix parsing.

/// Why a numeric token failed to parse.
#[derive(Clone, Copy, PartialEq, Eq, Structural, Debug)]
pub enum NumError {
    Empty,
    InvalidDigit,
    PosOverflow,
    NegOverflow,
}

/// The value of `c` as a digit, or -1: `0`-`9`, and `a`-`f` / `A`-`F`
/// for higher radixes.
pub open spec fn digit_value(c: char) -> int {
    let u = c as u32;
    if 48 <= u <= 57 {
        u - 48
    } else if 65 <= u <= 70 {
        u - 55
    } else if 97 <= u <= 102 {
        u - 87
    } else {
        -1
    }
}

/// Left-to-right accumulation of unsigned digits: an invalid digit, then
/// an overflow past `max`, each end the parse.
pub open spec fn digits_acc(digits: Seq<char>, radix: int, max: int, acc: int) -> Result<
    int,
    NumError,
>
    decreases digits.len(),
{
    if digits.len() == 0 {
        Ok(acc)
    } else {
        let d = digit_value(digits[0]);
        if !(0 <= d < radix) {
            Err(NumError::InvalidDigit)
        } else if acc * radix > max {
            Err(NumError::PosOverflow)
        } else if acc * radix + d > max {
            Err(NumError::PosOverflow)
        } else {
            digits_acc(digits.drop_first(), radix, max, acc * radix + d)
        }
    }
}

/// Left-to-right accumulation of a negated number's digits, bounded
/// below by `min`.
pub open spec fn digits_neg_acc(digits: Seq<char>, radix: int, min: int, acc: int) -> Result<
    int,
    NumError,
>
    decreases digits.len(),
{
    if digits.len() == 0 {
        Ok(acc)
    } else {
        let d = digit_value(digits[0]);
        if !(0 <= d < radix) {
            Err(NumError::InvalidDigit)
        } else if acc * radix < min {
            Err(NumError::NegOverflow)
        } else if acc * radix - d < min {
            Err(NumError::NegOverflow)
        } else {
            digits_neg_acc(digits.drop_first(), radix, min, acc * radix - d)
        }
    }
}

/// An unsigned number as the standard library reads one: an optional
/// leading `+`, then digits of the radix; empty input, a lone sign, a
/// stray character and overflow each fail in their own way.
pub open spec fn parse_uint_str(s: Seq<char>, radix: int, max: int) -> Result<int, NumError> {
    if s.len() == 0 {
        Err(NumError::Empty)
    } else if s.len() == 1 && (s[0] == '+' || s[0] == '-') {
        Err(NumError::InvalidDigit)
    } else if s[0] == '+' {
        digits_acc(s.drop_first(), radix, max, 0)
    } else {
        digits_acc(s, radix, max, 0)
    }
}

/// A signed number as the standard library reads one: an optional `+` or
/// `-`, then digits, the negative side accumulating downward.
pub open spec fn parse_sint_str(s: Seq<char>, radix: int, min: int, max: int) -> Result<
    int,
    NumError,
> {
    if s.len() == 0 {
        Err(NumError::Empty)
    } else if s.len() == 1 && (s[0] == '+' || s[0] == '-') {
        Err(NumError::InvalidDigit)
    } else if s[0] == '+' {
        digits_acc(s.drop_first(), radix, max, 0)
    } else if s[0] == '-' {
        digits_neg_acc(s.drop_first(), radix, min, 0)
    } else {
        digits_acc(s, radix, max, 0)
    }
}

/// The value of `c` as a digit, or -1.
fn digit_value_exec(c: char) -> (d: i64)
    ensures
        d == digit_value(c),
{
    let u = c as u32;
    if 48 <= u && u <= 57 {
        (u - 48) as i64
    } else if 65 <= u && u <= 70 {
        (u - 55) as i64
    } else if 97 <= u && u <= 102 {
        (u - 87) as i64
    } else {
        -1
    }
}

/// Reads an unsigned number from a token.
fn parse_uint_exec(t: &str, radix: u32, max: u64) -> (res: Result<u64, NumError>)
    requires
        2 <= radix <= 16,
    ensures
        res matches Ok(v) ==> v <= max && parse_uint_str(t@, radix as int, max as int) == Ok::<
            int,
            NumError,
        >(v as int),
        res matches Err(e) ==> parse_uint_str(t@, radix as int, max as int) == Err::<int, NumError>(
            e,
        ),
{
    let n = t.unicode_len();
    if n == 0 {
        return Err(NumError::Empty);
    }
    let first = t.get_char(0);
    if n == 1 && (first == '+' || first == '-') {
        return Err(NumError::InvalidDigit);
    }
    let mut i: usize = if first == '+' {
        1
    } else {
        0
    };
    let ghost digits = t@.skip(i as int);
    proof {
        if first == '+' {
            assert(t@.drop_first() =~= t@.skip(1));
        } else {
            assert(t@.skip(0) =~= t@);
        }
        assert(parse_uint_str(t@, radix as int, max as int) == digits_acc(
            digits,
            radix as int,
            max as int,
            0,
        ));
    }
    let mut acc: u128 = 0;
    while i < n
        invariant
            i <= n,
            n == t@.len(),
            acc as int <= max as int,
            max <= u64::MAX,
            2 <= radix <= 16,
            parse_uint_str(t@, radix as int, max as int) == digits_acc(
                digits,
                radix as int,
                max as int,
                0,
            ),
            digits_acc(digits, radix as int, max as int, 0) == digits_acc(
                t@.skip(i as int),
                radix as int,
                max as int,
                acc as int,
            ),
        decreases n - i,
    {
        let c = t.get_char(i);
        let d = digit_value_exec(c);
        proof {
            assert(t@.skip(i as int)[0] == t@[i as int]);
            assert(t@.skip(i as int).drop_first() =~= t@.skip(i as int + 1));
            assert(acc as int * (radix as int) <= 0xffff_ffff_ffff_ffff * 16) by (nonlinear_arith)
                requires
                    0 <= acc as int <= 0xffff_ffff_ffff_ffff,
                    2 <= radix <= 16,
            ;
        }
        if d < 0 || d >= radix as i64 {
            return Err(NumError::InvalidDigit);
        }
        let next: u128 = acc * (radix as u128);
        if next > max as u128 {
            return Err(NumError::PosOverflow);
        }
        let next2: u128 = next + (d as u128);
        if next2 > max as u128 {
            return Err(NumError::PosOverflow);
        }
        acc = next2;
        i = i + 1;
    }
    proof {
        assert(t@.skip(n as int) =~= Seq::<char>::empty());
    }
    Ok(acc as u64)
}

/// Reads a signed number from a token.
fn parse_sint_exec(t: &str, radix: u32, min: i64, max: i64) -> (res: Result<i64, NumError>)
    requires
        2 <= radix <= 16,
        min <= 0 <= max,
        -0x8000_0000_0000 <= min,
        max <= 0x8000_0000_0000,
    ensures
        res matches Ok(v) ==> parse_sint_str(t@, radix as int, min as int, max as int) == Ok::<
            int,
            NumError,
        >(v as int),
        res matches Err(e) ==> parse_sint_str(t@, radix as int, min as int, max as int) == Err::<
            int,
            NumError,
        >(e),
{
    let n = t.unicode_len();
    if n == 0 {
        return Err(NumError::Empty);
    }
    let first = t.get_char(0);
    if n == 1 && (first == '+' || first == '-') {
        return Err(NumError::InvalidDigit);
    }
    let negative = first == '-';
    let mut i: usize = if first == '+' || first == '-' {
        1
    } else {
        0
    };
    let ghost digits = t@.skip(i as int);
    proof {
        if first == '+' || first == '-' {
            assert(t@.drop_first() =~= t@.skip(1));
        } else {
            assert(t@.skip(0) =~= t@);
        }
    }
    let mut acc: i64 = 0;
    if negative {
        while i < n
            invariant
                i <= n,
                n == t@.len(),
                min as int <= acc as int <= 0,
                -0x8000_0000_0000 <= min <= 0,
                2 <= radix <= 16,
                parse_sint_str(t@, radix as int, min as int, max as int) == digits_neg_acc(
                    digits,
                    radix as int,
                    min as int,
                    0,
                ),
                digits_neg_acc(digits, radix as int, min as int, 0) == digits_neg_acc(
                    t@.skip(i as int),
                    radix as int,
                    min as int,
                    acc as int,
                ),
            decreases n - i,
        {
            let c = t.get_char(i);
            let d = digit_value_exec(c);
            proof {
                assert(t@.skip(i as int)[0] == t@[i as int]);
                assert(t@.skip(i as int).drop_first() =~= t@.skip(i as int + 1));
                assert(-0x8000_0000_0000 * 16 <= acc as int * (radix as int) <= 0)
                    by (nonlinear_arith)
                    requires
                        -0x8000_0000_0000 <= acc as int <= 0,
                        2 <= radix <= 16,
                ;
            }
            if d < 0 || d >= radix as i64 {
                return Err(NumError::InvalidDigit);
            }
            let next: i64 = acc * (radix as i64);
            if next < min {
                return Err(NumError::NegOverflow);
            }
            let next2: i64 = next - d;
            if next2 < min {
                return Err(NumError::NegOverflow);
            }
            acc = next2;
            i = i + 1;
        }
        proof {
            assert(t@.skip(n as int) =~= Seq::<char>::empty());
        }
        Ok(acc)
    } else {
        while i < n
            invariant
                i <= n,
                n == t@.len(),
                0 <= acc as int <= max as int,
                0 <= max <= 0x8000_0000_0000,
                2 <= radix <= 16,
                parse_sint_str(t@, radix as int, min as int, max as int) == digits_acc(
                    digits,
                    radix as int,
                    max as int,
                    0,
                ),
                digits_acc(digits, radix as int, max as int, 0) == digits_acc(
                    t@.skip(i as int),
                    radix as int,
                    max as int,
                    acc as int,
                ),
            decreases n - i,
        {
            let c = t.get_char(i);
            let d = digit_value_exec(c);
            proof {
                assert(t@.skip(i as int)[0] == t@[i as int]);
                assert(t@.skip(i as int).drop_first() =~= t@.skip(i as int + 1));
                assert(0 <= acc as int * (radix as int) <= 0x8000_0000_0000 * 16)
                    by (nonlinear_arith)
                    requires
                        0 <= acc as int <= 0x8000_0000_0000,
                        2 <= radix <= 16,
                ;
            }
            if d < 0 || d >= radix as i64 {
                return Err(NumError::InvalidDigit);
            }
            let next: i64 = acc * (radix as i64);
            if next > max {
                return Err(NumError::PosOverflow);
            }
            let next2: i64 = next + d;
            if next2 > max {
                return Err(NumError::PosOverflow);
            }
            acc = next2;
            i = i + 1;
        }
        proof {
            assert(t@.skip(n as int) =~= Seq::<char>::empty());
        }
        Ok(acc)
    }
}

// ---------------------------------------------------------------------
// The grammar's spec model: one spec function per parsing step, each
// returning the parsed value (or the exact error message) and the next
// token position.

/// A parsed shape, at the spec level: the polygon's vertices are a
/// sequence.
pub enum ShapeModel {
    Canvas(Canvas),
    Line(Line),
    Square(Square),
    Rectangle(Rectangle),
    Circle(Circle),
    Triangle(Triangle),
    Diamond(Diamond),
    Polygon { points: Seq<Point>, outline_color: Color, fill_color: Color },
}

impl View for ShapeValue {
    type V = ShapeModel;

    open spec fn view(&self) -> ShapeModel {
        match self {
            ShapeValue::Canvas(v) => ShapeModel::Canvas(*v),
            ShapeValue::Line(v) => ShapeModel::Line(*v),
            ShapeValue::Square(v) => ShapeModel::Square(*v),
            ShapeValue::Rectangle(v) => ShapeModel::Rectangle(*v),
            ShapeValue::Circle(v) => ShapeModel::Circle(*v),
            ShapeValue::Triangle(v) => ShapeModel::Triangle(*v),
            ShapeValue::Diamond(v) => ShapeModel::Diamond(*v),
            ShapeValue::Polygon(v) => ShapeModel::Polygon {
                points: v.points@,
                outline_color: v.outline_color,
                fill_color: v.fill_color,
            },
        }
    }
}

/// The display text of a numeric parse failure.
pub open spec fn num_error_text(e: NumError) -> Seq<char> {
    match e {
        NumError::Empty => "cannot parse integer from empty string"@,
        NumError::InvalidDigit => "invalid digit found in string"@,
        NumError::PosOverflow => "number too large to fit in target type"@,
        NumError::NegOverflow => "number too small to fit in target type"@,
    }
}

pub open spec fn missing_msg(name: Seq<char>, attribute: Seq<char>) -> Seq<char> {
    name + " does not seem to have a "@ + attribute
}

pub open spec fn convert_msg(
    name: Seq<char>,
    attribute: Seq<char>,
    ty: Seq<char>,
    e: NumError,
) -> Seq<char> {
    "Could not convert "@ + name + "'s "@ + attribute + " to "@ + ty + ": "@ + num_error_text(e)
}

pub open spec fn no_rgb_msg(shape: Seq<char>) -> Seq<char> {
    shape + "'s color does not have rgb component"@
}

pub open spec fn short_color_msg(shape: Seq<char>) -> Seq<char> {
    shape + "'s color string does not have more than one character"@
}

pub open spec fn hex_fail_msg(shape: Seq<char>, token: Seq<char>, e: NumError) -> Seq<char> {
    "Could not parse "@ + shape + "'s color hex representation "@ + token + ": "@
        + num_error_text(e)
}

pub open spec fn split_fail_msg(line: Seq<char>) -> Seq<char> {
    "Line: "@ + line + " could not be split by whitespaces"@
}

pub open spec fn invalid_line_msg(line: Seq<char>) -> Seq<char> {
    "Invalid line format: "@ + line
}

pub open spec fn sp_u8(toks: Seq<Seq<char>>, pos: int, name: Seq<char>, attribute: Seq<char>) -> (
    Result<u8, Seq<char>>,
    int,
) {
    if pos >= toks.len() {
        (Err(missing_msg(name, attribute)), pos)
    } else {
        match parse_uint_str(toks[pos], 10, 255) {
            Ok(v) => (Ok(v as u8), pos + 1),
            Err(e) => (Err(convert_msg(name, attribute, "u8"@, e)), pos + 1),
        }
    }
}

pub open spec fn sp_u32(toks: Seq<Seq<char>>, pos: int, name: Seq<char>, attribute: Seq<char>) -> (
    Result<u32, Seq<char>>,
    int,
) {
    if pos >= toks.len() {
        (Err(missing_msg(name, attribute)), pos)
    } else {
        match parse_uint_str(toks[pos], 10, 0xffff_ffff) {
            Ok(v) => (Ok(v as u32), pos + 1),
            Err(e) => (Err(convert_msg(name, attribute, "u32"@, e)), pos + 1),
        }
    }
}

pub open spec fn sp_i32(toks: Seq<Seq<char>>, pos: int, name: Seq<char>, attribute: Seq<char>) -> (
    Result<i32, Seq<char>>,
    int,
) {
    if pos >= toks.len() {
        (Err(missing_msg(name, attribute)), pos)
    } else {
        match parse_sint_str(toks[pos], 10, -0x8000_0000, 0x7fff_ffff) {
            Ok(v) => (Ok(v as i32), pos + 1),
            Err(e) => (Err(convert_msg(name, attribute, "i32"@, e)), pos + 1),
        }
    }
}

/// A color's 24-bit hex token: its first character is discarded and the
/// rest read as hexadecimal; a multi-byte first character cannot be
/// sliced off and is its own error.
pub open spec fn sp_color_hex(toks: Seq<Seq<char>>, pos: int, shape: Seq<char>) -> (
    Result<(u8, u8, u8), Seq<char>>,
    int,
) {
    if pos >= toks.len() {
        (Err(no_rgb_msg(shape)), pos)
    } else {
        let t = toks[pos];
        if t.len() == 0 || (t[0] as u32) > 127 {
            (Err(short_color_msg(shape)), pos + 1)
        } else {
            match parse_uint_str(t.drop_first(), 16, 0xffff_ffff) {
                Ok(v) => (
                    Ok((((v / 0x1_0000) % 0x100) as u8, ((v / 0x100) % 0x100) as u8, (v
                        % 0x100) as u8)),
                    pos + 1,
                ),
                Err(e) => (Err(hex_fail_msg(shape, t, e)), pos + 1),
            }
        }
    }
}

/// A color: a hex token, then a decimal alpha byte.
pub open spec fn sp_color(toks: Seq<Seq<char>>, pos: int, shape: Seq<char>, attribute: Seq<char>)
    -> (Result<Color, Seq<char>>, int) {
    let (r1, p1) = sp_color_hex(toks, pos, shape);
    match r1 {
        Err(m) => (Err(m), p1),
        Ok(rgb) => {
            let (r2, p2) = sp_u8(toks, p1, shape + "'s "@ + attribute, "alpha"@);
            match r2 {
                Err(m) => (Err(m), p2),
                Ok(a) => (Ok(Color { r: rgb.0, g: rgb.1, b: rgb.2, a }), p2),
            }
        },
    }
}

/// A point: two decimal signed coordinates.
pub open spec fn sp_point(toks: Seq<Seq<char>>, pos: int, shape: Seq<char>, attribute: Seq<char>)
    -> (Result<Point, Seq<char>>, int) {
    let name = shape + "."@ + attribute;
    let (r1, p1) = sp_i32(toks, pos, name, "x"@);
    match r1 {
        Err(m) => (Err(m), p1),
        Ok(x) => {
            let (r2, p2) = sp_i32(toks, p1, name, "y"@);
            match r2 {
                Err(m) => (Err(m), p2),
                Ok(y) => (Ok(Point { x, y }), p2),
            }
        },
    }
}

pub open spec fn sp_canvas(toks: Seq<Seq<char>>, pos: int) -> (Result<ShapeModel, Seq<char>>, int) {
    let (r1, p1) = sp_u32(toks, pos, "Canvas"@, "height"@);
    match r1 {
        Err(m) => (Err(m), p1),
        Ok(height) => {
            let (r2, p2) = sp_u32(toks, p1, "Canvas"@, "width"@);
            match r2 {
                Err(m) => (Err(m), p2),
                Ok(width) => {
                    let (r3, p3) = sp_color(toks, p2, "Canvas"@, "color"@);
                    match r3 {
                        Err(m) => (Err(m), p3),
                        Ok(color) => (Ok(ShapeModel::Canvas(Canvas { height, width, color })), p3),
                    }
                },
            }
        },
    }
}

pub open spec fn sp_line(toks: Seq<Seq<char>>, pos: int) -> (Result<ShapeModel, Seq<char>>, int) {
    let (r1, p1) = sp_point(toks, pos, "Line"@, "first point"@);
    match r1 {
        Err(m) => (Err(m), p1),
        Ok(p0) => {
            let (r2, p2) = sp_point(toks, p1, "Line"@, "second point"@);
            match r2 {
                Err(m) => (Err(m), p2),
                Ok(p1v) => {
                    let (r3, p3) = sp_color(toks, p2, "Line"@, "color"@);
                    match r3 {
                        Err(m) => (Err(m), p3),
                        Ok(color) => (Ok(ShapeModel::Line(Line { p0, p1: p1v, color })), p3),
                    }
                },
            }
        },
    }
}

pub open spec fn sp_square(toks: Seq<Seq<char>>, pos: int) -> (Result<ShapeModel, Seq<char>>, int) {
    let (r1, p1) = sp_point(toks, pos, "Square"@, "top left"@);
    match r1 {
        Err(m) => (Err(m), p1),
        Ok(top_left) => {
            let (r2, p2) = sp_u32(toks, p1, "Square"@, "side"@);
            match r2 {
                Err(m) => (Err(m), p2),
                Ok(side) => {
                    let (r3, p3) = sp_color(toks, p2, "Square"@, "outline color"@);
                    match r3 {
                        Err(m) => (Err(m), p3),
                        Ok(outline_color) => {
                            let (r4, p4) = sp_color(toks, p3, "Square"@, "fill color"@);
                            match r4 {
                                Err(m) => (Err(m), p4),
                                Ok(fill_color) => (
                                    Ok(ShapeModel::Square(Square {
                                        top_left,
                                        side,
                                        outline_color,
                                        fill_color,
                                    })),
                                    p4,
                                ),
                            }
                        },
                    }
                },
            }
        },
    }
}

pub open spec fn sp_rectangle(toks: Seq<Seq<char>>, pos: int) -> (
    Result<ShapeModel, Seq<char>>,
    int,
) {
    let (r1, p1) = sp_point(toks, pos, "Rectangle"@, "top left"@);
    match r1 {
        Err(m) => (Err(m), p1),
        Ok(top_left) => {
            let (r2, p2) = sp_u32(toks, p1, "Rectangle"@, "height"@);
            match r2 {
                Err(m) => (Err(m), p2),
                Ok(height) => {
                    let (r3, p3) = sp_u32(toks, p2, "Rectangle"@, "width"@);
                    match r3 {
                        Err(m) => (Err(m), p3),
                        Ok(width) => {
                            let (r4, p4) = sp_color(toks, p3, "Rectangle"@, "outline color"@);
                            match r4 {
                                Err(m) => (Err(m), p4),
                                Ok(outline_color) => {
                                    let (r5, p5) = sp_color(toks, p4, "Rectangle"@, "fill color"@);
                                    match r5 {
                                        Err(m) => (Err(m), p5),
                                        Ok(fill_color) => (
                                            Ok(ShapeModel::Rectangle(Rectangle {
                                                top_left,
                                                height,
                                                width,
                                                outline_color,
                                                fill_color,
                                            })),
                                            p5,
                                        ),
                                    }
                                },
                            }
                        },
                    }
                },
            }
        },
    }
}

pub open spec fn sp_circle(toks: Seq<Seq<char>>, pos: int) -> (Result<ShapeModel, Seq<char>>, int) {
    let (r1, p1) = sp_point(toks, pos, "Circle"@, "center"@);
    match r1 {
        Err(m) => (Err(m), p1),
        Ok(center) => {
            let (r2, p2) = sp_u32(toks, p1, "Circle"@, "radius"@);
            match r2 {
                Err(m) => (Err(m), p2),
                Ok(radius) => {
                    let (r3, p3) = sp_color(toks, p2, "Circle"@, "outline color"@);
                    match r3 {
                        Err(m) => (Err(m), p3),
                        Ok(outline_color) => {
                            let (r4, p4) = sp_color(toks, p3, "Circle"@, "fill color"@);
                            match r4 {
                                Err(m) => (Err(m), p4),
                                Ok(fill_color) => (
                                    Ok(ShapeModel::Circle(Circle {
                                        center,
                                        radius,
                                        outline_color,
                                        fill_color,
                                    })),
                                    p4,
                                ),
                            }
                        },
                    }
                },
            }
        },
    }
}

pub open spec fn sp_triangle(toks: Seq<Seq<char>>, pos: int) -> (
    Result<ShapeModel, Seq<char>>,
    int,
) {
    let (r1, p1) = sp_point(toks, pos, "Triangle"@, "first point"@);
    match r1 {
        Err(m) => (Err(m), p1),
        Ok(p0) => {
            let (r2, p2) = sp_point(toks, p1, "Triangle"@, "second point"@);
            match r2 {
                Err(m) => (Err(m), p2),
                Ok(p1v) => {
                    let (r3, p3) = sp_point(toks, p2, "Triangle"@, "third point"@);
                    match r3 {
                        Err(m) => (Err(m), p3),
                        Ok(p2v) => {
                            let (r4, p4) = sp_color(toks, p3, "Triangle"@, "outline color"@);
                            match r4 {
                                Err(m) => (Err(m), p4),
                                Ok(outline_color) => {
                                    let (r5, p5) = sp_color(toks, p4, "Triangle"@, "fill color"@);
                                    match r5 {
                                        Err(m) => (Err(m), p5),
                                        Ok(fill_color) => (
                                            Ok(ShapeModel::Triangle(Triangle {
                                                p0,
                                                p1: p1v,
                                                p2: p2v,
                                                outline_color,
                                                fill_color,
                                            })),
                                            p5,
                                        ),
                                    }
                                },
                            }
                        },
                    }
                },
            }
        },
    }
}

pub open spec fn sp_diamond(toks: Seq<Seq<char>>, pos: int) -> (
    Result<ShapeModel, Seq<char>>,
    int,
) {
    let (r1, p1) = sp_point(toks, pos, "Diamond"@, "center"@);
    match r1 {
        Err(m) => (Err(m), p1),
        Ok(center) => {
            let (r2, p2) = sp_u32(toks, p1, "Diamond"@, "horizontal diagonal"@);
            match r2 {
                Err(m) => (Err(m), p2),
                Ok(horizontal_diagonal) => {
                    let (r3, p3) = sp_u32(toks, p2, "Diamond"@, "vertical diagonal"@);
                    match r3 {
                        Err(m) => (Err(m), p3),
                        Ok(vertical_diagonal) => {
                            let (r4, p4) = sp_color(toks, p3, "Diamond"@, "outline color"@);
                            match r4 {
                                Err(m) => (Err(m), p4),
                                Ok(outline_color) => {
                                    let (r5, p5) = sp_color(toks, p4, "Diamond"@, "fill color"@);
                                    match r5 {
                                        Err(m) => (Err(m), p5),
                                        Ok(fill_color) => (
                                            Ok(ShapeModel::Diamond(Diamond {
                                                center,
                                                horizontal_diagonal,
                                                vertical_diagonal,
                                                outline_color,
                                                fill_color,
                                            })),
                                            p5,
                                        ),
                                    }
                                },
                            }
                        },
                    }
                },
            }
        },
    }
}

/// The polygon's vertex list: `n - k` more points, numbered from `k`.
pub open spec fn sp_polygon_points(
    toks: Seq<Seq<char>>,
    pos: int,
    k: int,
    n: int,
    acc: Seq<Point>,
) -> (Result<Seq<Point>, Seq<char>>, int)
    decreases n - k,
{
    if k >= n {
        (Ok(acc), pos)
    } else {
        let (r1, p1) = sp_point(toks, pos, "Polygon"@, "point "@ + dec_digits(k));
        match r1 {
            Err(m) => (Err(m), p1),
            Ok(pt) => sp_polygon_points(toks, p1, k + 1, n, acc.push(pt)),
        }
    }
}

pub open spec fn sp_polygon(toks: Seq<Seq<char>>, pos: int) -> (
    Result<ShapeModel, Seq<char>>,
    int,
) {
    let (r1, p1) = sp_u32(toks, pos, "Polygon"@, "number of points"@);
    match r1 {
        Err(m) => (Err(m), p1),
        Ok(n) => {
            let (r2, p2) = sp_polygon_points(toks, p1, 0, n as int, Seq::<Point>::empty());
            match r2 {
                Err(m) => (Err(m), p2),
                Ok(points) => {
                    let (r3, p3) = sp_color(toks, p2, "Polygon"@, "outline color"@);
                    match r3 {
                        Err(m) => (Err(m), p3),
                        Ok(outline_color) => {
                            let (r4, p4) = sp_color(toks, p3, "Polygon"@, "fill color"@);
                            match r4 {
                                Err(m) => (Err(m), p4),
                                Ok(fill_color) => (
                                    Ok(ShapeModel::Polygon { points, outline_color, fill_color }),
                                    p4,
                                ),
                            }
                        },
                    }
                },
            }
        },
    }
}

/// What one input line parses to: a shape of the variant its keyword
/// names, or the exact error message.
pub open spec fn sp_shape(line: Seq<char>) -> Result<ShapeModel, Seq<char>> {
    let toks = tokens_of(line);
    if toks.len() == 0 {
        Err(split_fail_msg(line))
    } else if toks[0] == "CANVAS"@ {
        sp_canvas(toks, 1).0
    } else if toks[0] == "LINE"@ {
        sp_line(toks, 1).0
    } else if toks[0] == "SQUARE"@ {
        sp_square(toks, 1).0
    } else if toks[0] == "RECTANGLE"@ {
        sp_rectangle(toks, 1).0
    } else if toks[0] == "CIRCLE"@ {
        sp_circle(toks, 1).0
    } else if toks[0] == "TRIANGLE"@ {
        sp_triangle(toks, 1).0
    } else if toks[0] == "DIAMOND"@ {
        sp_diamond(toks, 1).0
    } else if toks[0] == "POLYGON"@ {
        sp_polygon(toks, 1).0
    } else {
        Err(invalid_line_msg(line))
    }
}

// ---------------------------------------------------------------------
// The executable parser, one function per grammar step, each proved
// against its spec model.

/// Wraps a message as the error the parser propagates.
pub(crate) fn create_parse_error(name: String) -> (e: GenericError)
    ensures
        e.message == name,
{
    GenericError::new(name)
}

/// The display text of a numeric parse failure.
pub(crate) fn num_error_str(e: NumError) -> (s: &'static str)
    ensures
        s@ == num_error_text(e),
{
    match e {
        NumError::Empty => "cannot parse integer from empty string",
        NumError::InvalidDigit => "invalid digit found in string",
        NumError::PosOverflow => "number too large to fit in target type",
        NumError::NegOverflow => "number too small to fit in target type",
    }
}

fn build_missing_msg(name: &str, attribute: &str) -> (m: String)
    ensures
        m@ == missing_msg(name@, attribute@),
{
    let mut m = name.to_owned();
    m.append(" does not seem to have a ");
    m.append(attribute);
    m
}

fn build_convert_msg(name: &str, attribute: &str, ty: &str, e: NumError) -> (m: String)
    ensures
        m@ == convert_msg(name@, attribute@, ty@, e),
{
    let mut m = "Could not convert ".to_owned();
    m.append(name);
    m.append("'s ");
    m.append(attribute);
    m.append(" to ");
    m.append(ty);
    m.append(": ");
    m.append(num_error_str(e));
    m
}

/// Reads a decimal byte token, the next token of the stream.
fn parse_u8(tokens: &Vec<String>, pos: &mut usize, name: &str, attribute: &str) -> (res: Result<
    u8,
    GenericError,
>)
    ensures
        ({
            let (r, p) = sp_u8(tok_views(tokens@), *old(pos) as int, name@, attribute@);
            &&& *final(pos) as int == p
            &&& match res {
                Ok(v) => r == Ok::<u8, Seq<char>>(v),
                Err(e) => r == Err::<u8, Seq<char>>(e.message@),
            }
        }),
{
    if *pos >= tokens.len() {
        return Err(create_parse_error(build_missing_msg(name, attribute)));
    }
    let t = &tokens[*pos];
    *pos = *pos + 1;
    proof {
        assert(tok_views(tokens@)[*old(pos) as int] == t@);
    }
    match parse_uint_exec(t.as_str(), 10, 255) {
        Ok(v) => Ok(v as u8),
        Err(e) => Err(create_parse_error(build_convert_msg(name, attribute, "u8", e))),
    }
}

/// Reads a decimal unsigned 32-bit token.
fn parse_u32(tokens: &Vec<String>, pos: &mut usize, name: &str, attribute: &str) -> (res: Result<
    u32,
    GenericError,
>)
    ensures
        ({
            let (r, p) = sp_u32(tok_views(tokens@), *old(pos) as int, name@, attribute@);
            &&& *final(pos) as int == p
            &&& match res {
                Ok(v) => r == Ok::<u32, Seq<char>>(v),
                Err(e) => r == Err::<u32, Seq<char>>(e.message@),
            }
        }),
{
    if *pos >= tokens.len() {
        return Err(create_parse_error(build_missing_msg(name, attribute)));
    }
    let t = &tokens[*pos];
    *pos = *pos + 1;
    proof {
        assert(tok_views(tokens@)[*old(pos) as int] == t@);
    }
    match parse_uint_exec(t.as_str(), 10, 0xffff_ffff) {
        Ok(v) => Ok(v as u32),
        Err(e) => Err(create_parse_error(build_convert_msg(name, attribute, "u32", e))),
    }
}

/// Reads a decimal signed 32-bit token.
fn parse_i32(tokens: &Vec<String>, pos: &mut usize, name: &str, attribute: &str) -> (res: Result<
    i32,
    GenericError,
>)
    ensures
        ({
            let (r, p) = sp_i32(tok_views(tokens@), *old(pos) as int, name@, attribute@);
            &&& *final(pos) as int == p
            &&& match res {
                Ok(v) => r == Ok::<i32, Seq<char>>(v),
                Err(e) => r == Err::<i32, Seq<char>>(e.message@),
            }
        }),
{
    if *pos >= tokens.len() {
        return Err(create_parse_error(build_missing_msg(name, attribute)));
    }
    let t = &tokens[*pos];
    *pos = *pos + 1;
    proof {
        assert(tok_views(tokens@)[*old(pos) as int] == t@);
    }
    match parse_sint_exec(t.as_str(), 10, -0x8000_0000i64, 0x7fff_ffffi64) {
        Ok(v) => Ok(v as i32),
        Err(e) => Err(create_parse_error(build_convert_msg(name, attribute, "i32", e))),
    }
}

/// Reads a color's hex token: discards its first character and reads the
/// rest as a 24-bit hexadecimal value.
fn parse_color_hex(tokens: &Vec<String>, pos: &mut usize, shape: &str) -> (res: Result<
    (u8, u8, u8),
    GenericError,
>)
    ensures
        ({
            let (r, p) = sp_color_hex(tok_views(tokens@), *old(pos) as int, shape@);
            &&& *final(pos) as int == p
            &&& match res {
                Ok(v) => r == Ok::<(u8, u8, u8), Seq<char>>(v),
                Err(e) => r == Err::<(u8, u8, u8), Seq<char>>(e.message@),
            }
        }),
{
    if *pos >= tokens.len() {
        let mut m = shape.to_owned();
        m.append("'s color does not have rgb component");
        return Err(create_parse_error(m));
    }
    let t = &tokens[*pos];
    *pos = *pos + 1;
    proof {
        assert(tok_views(tokens@)[*old(pos) as int] == t@);
    }
    let n = t.as_str().unicode_len();
    let ascii_head = if n == 0 {
        false
    } else {
        (t.as_str().get_char(0) as u32) <= 127
    };
    if !ascii_head {
        let mut m = shape.to_owned();
        m.append("'s color string does not have more than one character");
        return Err(create_parse_error(m));
    }
    let rest = t.as_str().substring_char(1, n);
    proof {
        assert(rest@ =~= t@.drop_first());
    }
    match parse_uint_exec(rest, 16, 0xffff_ffff) {
        Ok(v) => {
            let r = ((v / 0x1_0000) % 0x100) as u8;
            let g = ((v / 0x100) % 0x100) as u8;
            let b = (v % 0x100) as u8;
            Ok((r, g, b))
        },
        Err(e) => {
            let mut m = "Could not parse ".to_owned();
            m.append(shape);
            m.append("'s color hex representation ");
            m.append(t.as_str());
            m.append(": ");
            m.append(num_error_str(e));
            Err(create_parse_error(m))
        },
    }
}

/// Reads a color: a hex token, then a decimal alpha byte.
fn parse_color(tokens: &Vec<String>, pos: &mut usize, shape: &str, attribute: &str) -> (res:
    Result<Color, GenericError>)
    ensures
        ({
            let (r, p) = sp_color(tok_views(tokens@), *old(pos) as int, shape@, attribute@);
            &&& *final(pos) as int == p
            &&& match res {
                Ok(v) => r == Ok::<Color, Seq<char>>(v),
                Err(e) => r == Err::<Color, Seq<char>>(e.message@),
            }
        }),
{
    let rgb = parse_color_hex(tokens, pos, shape)?;
    let mut name = shape.to_owned();
    name.append("'s ");
    name.append(attribute);
    let a = parse_u8(tokens, pos, name.as_str(), "alpha")?;
    Ok(Color::new(rgb.0, rgb.1, rgb.2, a))
}

/// Reads a point: two decimal signed coordinates.
fn parse_point(tokens: &Vec<String>, pos: &mut usize, shape: &str, attribute: &str) -> (res:
    Result<Point, GenericError>)
    ensures
        ({
            let (r, p) = sp_point(tok_views(tokens@), *old(pos) as int, shape@, attribute@);
            &&& *final(pos) as int == p
            &&& match res {
                Ok(v) => r == Ok::<Point, Seq<char>>(v),
                Err(e) => r == Err::<Point, Seq<char>>(e.message@),
            }
        }),
{
    let mut name = shape.to_owned();
    name.append(".");
    name.append(attribute);
    let x = parse_i32(tokens, pos, name.as_str(), "x")?;
    let y = parse_i32(tokens, pos, name.as_str(), "y")?;
    Ok(Point::new(x, y))
}

fn parse_canvas(tokens: &Vec<String>, pos: &mut usize) -> (res: Result<ShapeValue, GenericError>)
    ensures
        ({
            let (r, p) = sp_canvas(tok_views(tokens@), *old(pos) as int);
            &&& *final(pos) as int == p
            &&& match res {
                Ok(s) => r == Ok::<ShapeModel, Seq<char>>(s@),
                Err(e) => r == Err::<ShapeModel, Seq<char>>(e.message@),
            }
        }),
{
    let height = parse_u32(tokens, pos, "Canvas", "height")?;
    let width = parse_u32(tokens, pos, "Canvas", "width")?;
    let color = parse_color(tokens, pos, "Canvas", "color")?;
    Ok(ShapeValue::Canvas(Canvas::new(height, width, color)))
}

fn parse_line(tokens: &Vec<String>, pos: &mut usize) -> (res: Result<ShapeValue, GenericError>)
    ensures
        ({
            let (r, p) = sp_line(tok_views(tokens@), *old(pos) as int);
            &&& *final(pos) as int == p
            &&& match res {
                Ok(s) => r == Ok::<ShapeModel, Seq<char>>(s@),
                Err(e) => r == Err::<ShapeModel, Seq<char>>(e.message@),
            }
        }),
{
    let p0 = parse_point(tokens, pos, "Line", "first point")?;
    let p1 = parse_point(tokens, pos, "Line", "second point")?;
    let color = parse_color(tokens, pos, "Line", "color")?;
    Ok(ShapeValue::Line(Line::new(p0, p1, color)))
}

fn parse_square(tokens: &Vec<String>, pos: &mut usize) -> (res: Result<ShapeValue, GenericError>)
    ensures
        ({
            let (r, p) = sp_square(tok_views(tokens@), *old(pos) as int);
            &&& *final(pos) as int == p
            &&& match res {
                Ok(s) => r == Ok::<ShapeModel, Seq<char>>(s@),
                Err(e) => r == Err::<ShapeModel, Seq<char>>(e.message@),
            }
        }),
{
    let top_left = parse_point(tokens, pos, "Square", "top left")?;
    let side = parse_u32(tokens, pos, "Square", "side")?;
    let outline_color = parse_color(tokens, pos, "Square", "outline color")?;
    let fill_color = parse_color(tokens, pos, "Square", "fill color")?;
    Ok(ShapeValue::Square(Square::new(top_left, side, outline_color, fill_color)))
}

fn parse_rectangle(tokens: &Vec<String>, pos: &mut usize) -> (res: Result<
    ShapeValue,
    GenericError,
>)
    ensures
        ({
            let (r, p) = sp_rectangle(tok_views(tokens@), *old(pos) as int);
            &&& *final(pos) as int == p
            &&& match res {
                Ok(s) => r == Ok::<ShapeModel, Seq<char>>(s@),
                Err(e) => r == Err::<ShapeModel, Seq<char>>(e.message@),
            }
        }),
{
    let top_left = parse_point(tokens, pos, "Rectangle", "top left")?;
    let height = parse_u32(tokens, pos, "Rectangle", "height")?;
    let width = parse_u32(tokens, pos, "Rectangle", "width")?;
    let outline_color = parse_color(tokens, pos, "Rectangle", "outline color")?;
    let fill_color = parse_color(tokens, pos, "Rectangle", "fill color")?;
    Ok(ShapeValue::Rectangle(Rectangle::new(top_left, height, width, outline_color, fill_color)))
}

fn parse_circle(tokens: &Vec<String>, pos: &mut usize) -> (res: Result<ShapeValue, GenericError>)
    ensures
        ({
            let (r, p) = sp_circle(tok_views(tokens@), *old(pos) as int);
            &&& *final(pos) as int == p
            &&& match res {
                Ok(s) => r == Ok::<ShapeModel, Seq<char>>(s@),
                Err(e) => r == Err::<ShapeModel, Seq<char>>(e.message@),
            }
        }),
{
    let center = parse_point(tokens, pos, "Circle", "center")?;
    let radius = parse_u32(tokens, pos, "Circle", "radius")?;
    let outline_color = parse_color(tokens, pos, "Circle", "outline color")?;
    let fill_color = parse_color(tokens, pos, "Circle", "fill color")?;
    Ok(ShapeValue::Circle(Circle::new(center, radius, outline_color, fill_color)))
}

fn parse_triangle(tokens: &Vec<String>, pos: &mut usize) -> (res: Result<ShapeValue, GenericError>)
    ensures
        ({
            let (r, p) = sp_triangle(tok_views(tokens@), *old(pos) as int);
            &&& *final(pos) as int == p
            &&& match res {
                Ok(s) => r == Ok::<ShapeModel, Seq<char>>(s@),
                Err(e) => r == Err::<ShapeModel, Seq<char>>(e.message@),
            }
        }),
{
    let p0 = parse_point(tokens, pos, "Triangle", "first point")?;
    let p1 = parse_point(tokens, pos, "Triangle", "second point")?;
    let p2 = parse_point(tokens, pos, "Triangle", "third point")?;
    let outline_color = parse_color(tokens, pos, "Triangle", "outline color")?;
    let fill_color = parse_color(tokens, pos, "Triangle", "fill color")?;
    Ok(ShapeValue::Triangle(Triangle::new(p0, p1, p2, outline_color, fill_color)))
}

fn parse_diamond(tokens: &Vec<String>, pos: &mut usize) -> (res: Result<ShapeValue, GenericError>)
    ensures
        ({
            let (r, p) = sp_diamond(tok_views(tokens@), *old(pos) as int);
            &&& *final(pos) as int == p
            &&& match res {
                Ok(s) => r == Ok::<ShapeModel, Seq<char>>(s@),
                Err(e) => r == Err::<ShapeModel, Seq<char>>(e.message@),
            }
        }),
{
    let center = parse_point(tokens, pos, "Diamond", "center")?;
    let horizontal_diagonal = parse_u32(tokens, pos, "Diamond", "horizontal diagonal")?;
    let vertical_diagonal = parse_u32(tokens, pos, "Diamond", "vertical diagonal")?;
    let outline_color = parse_color(tokens, pos, "Diamond", "outline color")?;
    let fill_color = parse_color(tokens, pos, "Diamond", "fill color")?;
    Ok(ShapeValue::Diamond(Diamond::new(
        center,
        horizontal_diagonal,
        vertical_diagonal,
        outline_color,
        fill_color,
    )))
}

fn parse_polygon(tokens: &Vec<String>, pos: &mut usize) -> (res: Result<ShapeValue, GenericError>)
    ensures
        ({
            let (r, p) = sp_polygon(tok_views(tokens@), *old(pos) as int);
            &&& *final(pos) as int == p
            &&& match res {
                Ok(s) => r == Ok::<ShapeModel, Seq<char>>(s@),
                Err(e) => r == Err::<ShapeModel, Seq<char>>(e.message@),
            }
        }),
{
    let points_number = parse_u32(tokens, pos, "Polygon", "number of points")?;
    let ghost toks = tok_views(tokens@);
    let ghost p1 = *pos as int;
    let mut points: Vec<Point> = Vec::new();
    let mut point_index: u32 = 0;
    proof {
        assert(points@ =~= Seq::<Point>::empty());
    }
    while point_index < points_number
        invariant
            point_index <= points_number,
            toks == tok_views(tokens@),
            ({
                let (r0, q0) = sp_u32(toks, *old(pos) as int, "Polygon"@, "number of points"@);
                r0 == Ok::<u32, Seq<char>>(points_number) && q0 == p1
            }),
            sp_polygon_points(toks, p1, 0, points_number as int, Seq::<Point>::empty())
                == sp_polygon_points(
                toks,
                *pos as int,
                point_index as int,
                points_number as int,
                points@,
            ),
        decreases points_number - point_index,
    {
        let ghost pre_pos = *pos as int;
        let ghost pre_points = points@;
        let mut attribute = "point ".to_owned();
        attribute.append(u32_to_string(point_index).as_str());
        proof {
            assert(attribute@ == "point "@ + dec_digits(point_index as int));
        }
        let point = match parse_point(tokens, pos, "Polygon", attribute.as_str()) {
            Ok(point) => point,
            Err(e) => {
                proof {
                    let step = sp_polygon_points(
                        toks,
                        pre_pos,
                        point_index as int,
                        points_number as int,
                        pre_points,
                    );
                    assert(step.0 == Err::<Seq<Point>, Seq<char>>(e.message@));
                    assert(step.1 == *pos as int);
                }
                return Err(e);
            },
        };
        proof {
            let step = sp_polygon_points(
                toks,
                pre_pos,
                point_index as int,
                points_number as int,
                pre_points,
            );
            assert(step == sp_polygon_points(
                toks,
                *pos as int,
                point_index as int + 1,
                points_number as int,
                pre_points.push(point),
            ));
        }
        points.push(point);
        point_index = point_index + 1;
    }
    let outline_color = parse_color(tokens, pos, "Polygon", "outline color")?;
    let fill_color = parse_color(tokens, pos, "Polygon", "fill color")?;
    Ok(ShapeValue::Polygon(Polygon::new(points, outline_color, fill_color)))
}

/// The parser: turns one input line into a typed shape value.
pub struct ShapeFactory {}

impl ShapeFactory {
    /// Parses one shape line: a case-sensitive keyword, then the
    /// variant's whitespace-separated attributes.  The result, or the
    /// error message, is exactly what `sp_shape` says of the line.
    pub fn parse_shape(line: &String) -> (res: Result<ShapeValue, GenericError>)
        ensures
            match res {
                Ok(s) => sp_shape(line@) == Ok::<ShapeModel, Seq<char>>(s@),
                Err(e) => sp_shape(line@) == Err::<ShapeModel, Seq<char>>(e.message@),
            },
    {
        let tokens = split_into_tokens(line.as_str());
        if tokens.len() == 0 {
            let mut m = "Line: ".to_owned();
            m.append(line.as_str());
            m.append(" could not be split by whitespaces");
            return Err(create_parse_error(m));
        }
        let first_element = &tokens[0];
        proof {
            assert(tok_views(tokens@)[0] == first_element@);
        }
        let mut pos: usize = 1;
        if str_eq(first_element.as_str(), "CANVAS") {
            parse_canvas(&tokens, &mut pos)
        } else if str_eq(first_element.as_str(), "LINE") {
            parse_line(&tokens, &mut pos)
        } else if str_eq(first_element.as_str(), "SQUARE") {
            parse_square(&tokens, &mut pos)
        } else if str_eq(first_element.as_str(), "RECTANGLE") {
            parse_rectangle(&tokens, &mut pos)
        } else if str_eq(first_element.as_str(), "CIRCLE") {
            parse_circle(&tokens, &mut pos)
        } else if str_eq(first_element.as_str(), "TRIANGLE") {
            parse_triangle(&tokens, &mut pos)
        } else if str_eq(first_element.as_str(), "DIAMOND") {
            parse_diamond(&tokens, &mut pos)
        } else if str_eq(first_element.as_str(), "POLYGON") {
            parse_polygon(&tokens, &mut pos)
        } else {
            let mut m = "Invalid line format: ".to_owned();
            m.append(line.as_str());
            Err(create_parse_error(m))
        }
    }
}

/// Reads the input's leading shape count: a decimal machine-word-sized
/// number, as the standard library parses one.
pub(crate) fn parse_count(t: &str) -> (res: Result<usize, NumError>)
    ensures
        res matches Ok(v) ==> parse_uint_str(t@, 10, usize::MAX as int) == Ok::<int, NumError>(
            v as int,
        ),
        res matches Err(e) ==> parse_uint_str(t@, 10, usize::MAX as int) == Err::<int, NumError>(
            e,
        ),
{
    proof {
        assert(usize::MAX as u64 as int == usize::MAX as int);
    }
    match parse_uint_exec(t, 10, usize::MAX as u64) {
        Ok(v) => Ok(v as usize),
        Err(e) => Err(e),
    }
}

/// Character-by-character string equality.
fn str_eq(a: &str, b: &str) -> (r: bool)
    ensures
        r == (a@ == b@),
{
    let na = a.unicode_len();
    let nb = b.unicode_len();
    if na != nb {
        proof {
            assert(a@ != b@);
        }
        return false;
    }
    let mut i: usize = 0;
    while i < na
        invariant
            i <= na,
            na == a@.len(),
            na == b@.len(),
            forall|k: int| 0 <= k < i ==> a@[k] == b@[k],
        decreases na - i,
    {
        if a.get_char(i) != b.get_char(i) {
            proof {
                assert(a@[i as int] != b@[i as int]);
            }
            return false;
        }
        i = i + 1;
    }
    proof {
        assert(a@ =~= b@);
    }
    true
}

} // verus!
