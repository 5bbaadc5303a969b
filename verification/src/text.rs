//! Numbers as decimal text: the grammar, the parsers of the standard library
//! held to it, a formatter, and the proof that what the formatter writes is read
//! back.

use vstd::prelude::*;
use vstd::string::*;

verus! {

/// The width and signedness of a requested integer.
#[derive(Debug, Clone, Copy, PartialEq, Eq, Structural)]
pub enum IntKind {
    U8,
    U16,
    U32,
    U64,
    I8,
    I16,
    I32,
    I64,
}

impl IntKind {
    /// The smallest value of the kind.
    pub open spec fn lo(self) -> int {
        match self {
            IntKind::U8 | IntKind::U16 | IntKind::U32 | IntKind::U64 => 0,
            IntKind::I8 => i8::MIN as int,
            IntKind::I16 => i16::MIN as int,
            IntKind::I32 => i32::MIN as int,
            IntKind::I64 => i64::MIN as int,
        }
    }

    /// The largest value of the kind.
    pub open spec fn hi(self) -> int {
        match self {
            IntKind::U8 => u8::MAX as int,
            IntKind::U16 => u16::MAX as int,
            IntKind::U32 => u32::MAX as int,
            IntKind::U64 => u64::MAX as int,
            IntKind::I8 => i8::MAX as int,
            IntKind::I16 => i16::MAX as int,
            IntKind::I32 => i32::MAX as int,
            IntKind::I64 => i64::MAX as int,
        }
    }

    /// The value that a native integer reply takes in the kind: a cast that keeps
    /// the low bits of the two's complement form, so a reply out of range wraps
    /// around instead of failing.
    pub open spec fn wrap(self, i: i64) -> int {
        match self {
            IntKind::U8 => (i as u8) as int,
            IntKind::U16 => (i as u16) as int,
            IntKind::U32 => (i as u32) as int,
            IntKind::U64 => (i as u64) as int,
            IntKind::I8 => (i as i8) as int,
            IntKind::I16 => (i as i16) as int,
            IntKind::I32 => (i as i32) as int,
            IntKind::I64 => i as int,
        }
    }
}

/// Whether `b` is one of the ASCII digits.
pub open spec fn is_digit(b: u8) -> bool {
    '0' as u8 <= b <= '9' as u8
}

/// The number that a run of digits writes, most significant digit first.
pub open spec fn digits_value(s: Seq<u8>) -> nat
    decreases s.len(),
{
    if s.len() == 0 {
        0
    } else {
        (digits_value(s.drop_last()) * 10 + (s.last() - '0' as u8)) as nat
    }
}

/// Whether every byte is a digit.
pub open spec fn all_digits(s: Seq<u8>) -> bool {
    forall|i: int| 0 <= i < s.len() ==> is_digit(#[trigger] s[i])
}

/// The number between `lo` and `hi` that a byte string is the decimal text of,
/// if it is one.
///
/// The text is an optional sign and then digits only, at least one: `+` is
/// always accepted, `-` only where `lo` is negative. Zeros may lead.
pub open spec fn parse_int(s: Seq<u8>, lo: int, hi: int) -> Option<int> {
    let negative = lo < 0 && s.len() > 0 && s[0] == '-' as u8;
    let digits = if s.len() > 0 && (s[0] == '+' as u8 || negative) {
        s.skip(1)
    } else {
        s
    };
    let value = if negative {
        -digits_value(digits)
    } else {
        digits_value(digits) as int
    };
    if digits.len() > 0 && all_digits(digits) && lo <= value <= hi {
        Some(value)
    } else {
        None
    }
}

/// The digits of `n`, most significant first, without leading zeros.
pub open spec fn digits_of(n: nat) -> Seq<u8>
    decreases n,
{
    if n < 10 {
        seq![('0' as u8 + n) as u8]
    } else {
        digits_of(n / 10).push(('0' as u8 + n % 10) as u8)
    }
}

/// The decimal text of `v`: a minus sign for a negative number, then its digits.
pub open spec fn decimal(v: int) -> Seq<u8> {
    if v < 0 {
        seq!['-' as u8] + digits_of((-v) as nat)
    } else {
        digits_of(v as nat)
    }
}

/// The digits of a number are digits, at least one of them, and write that number.
pub proof fn lemma_digits_of(n: nat)
    ensures
        digits_of(n).len() >= 1,
        forall|k: int| 0 <= k < digits_of(n).len() ==> is_digit(#[trigger] digits_of(n)[k]),
        digits_value(digits_of(n)) == n,
    decreases n,
{
    if n < 10 {
        let s = digits_of(n);
        assert(s.drop_last() =~= Seq::<u8>::empty());
        assert(digits_value(s.drop_last()) == 0);
    } else {
        lemma_digits_of(n / 10);
        let s = digits_of(n);
        assert(s.drop_last() =~= digits_of(n / 10));
    }
}

/// Reading back the decimal text of a number in range gives the number.
pub proof fn lemma_parse_decimal(v: int, lo: int, hi: int)
    requires
        lo <= v <= hi,
    ensures
        parse_int(decimal(v), lo, hi) == Some(v),
{
    let s = decimal(v);
    if v < 0 {
        let n = (-v) as nat;
        lemma_digits_of(n);
        assert(s.skip(1) =~= digits_of(n));
    } else {
        lemma_digits_of(v as nat);
        assert(is_digit(s[0]));
    }
}

/// The error of the integer parsers of the standard library, carried through as
/// it comes.
#[verifier::external_type_specification]
#[verifier::external_body]
pub struct ExParseIntError(core::num::ParseIntError);

/// `str::parse::<u8>` reads an optional `+` and then decimal digits, and fails on
/// any other text and on a number out of range.
#[verifier::external_body]
pub(crate) fn parse_u8(text: &str) -> (r: Result<u8, core::num::ParseIntError>)
    ensures
        match parse_int(text.spec_bytes(), IntKind::U8.lo(), IntKind::U8.hi()) {
            Some(v) => r matches Ok(x) && x == v,
            None => r is Err,
        },
{
    text.parse::<u8>()
}

/// `str::parse::<u16>` reads an optional `+` and then decimal digits, and fails
/// on any other text and on a number out of range.
#[verifier::external_body]
pub(crate) fn parse_u16(text: &str) -> (r: Result<u16, core::num::ParseIntError>)
    ensures
        match parse_int(text.spec_bytes(), IntKind::U16.lo(), IntKind::U16.hi()) {
            Some(v) => r matches Ok(x) && x == v,
            None => r is Err,
        },
{
    text.parse::<u16>()
}

/// `str::parse::<u32>` reads an optional `+` and then decimal digits, and fails
/// on any other text and on a number out of range.
#[verifier::external_body]
pub(crate) fn parse_u32(text: &str) -> (r: Result<u32, core::num::ParseIntError>)
    ensures
        match parse_int(text.spec_bytes(), IntKind::U32.lo(), IntKind::U32.hi()) {
            Some(v) => r matches Ok(x) && x == v,
            None => r is Err,
        },
{
    text.parse::<u32>()
}

/// `str::parse::<u64>` reads an optional `+` and then decimal digits, and fails
/// on any other text and on a number out of range.
#[verifier::external_body]
pub(crate) fn parse_u64(text: &str) -> (r: Result<u64, core::num::ParseIntError>)
    ensures
        match parse_int(text.spec_bytes(), IntKind::U64.lo(), IntKind::U64.hi()) {
            Some(v) => r matches Ok(x) && x == v,
            None => r is Err,
        },
{
    text.parse::<u64>()
}

/// `str::parse::<i8>` reads an optional `+` or `-` and then decimal digits, and
/// fails on any other text and on a number out of range.
#[verifier::external_body]
pub(crate) fn parse_i8(text: &str) -> (r: Result<i8, core::num::ParseIntError>)
    ensures
        match parse_int(text.spec_bytes(), IntKind::I8.lo(), IntKind::I8.hi()) {
            Some(v) => r matches Ok(x) && x == v,
            None => r is Err,
        },
{
    text.parse::<i8>()
}

/// `str::parse::<i16>` reads an optional `+` or `-` and then decimal digits, and
/// fails on any other text and on a number out of range.
#[verifier::external_body]
pub(crate) fn parse_i16(text: &str) -> (r: Result<i16, core::num::ParseIntError>)
    ensures
        match parse_int(text.spec_bytes(), IntKind::I16.lo(), IntKind::I16.hi()) {
            Some(v) => r matches Ok(x) && x == v,
            None => r is Err,
        },
{
    text.parse::<i16>()
}

/// `str::parse::<i32>` reads an optional `+` or `-` and then decimal digits, and
/// fails on any other text and on a number out of range.
#[verifier::external_body]
pub(crate) fn parse_i32(text: &str) -> (r: Result<i32, core::num::ParseIntError>)
    ensures
        match parse_int(text.spec_bytes(), IntKind::I32.lo(), IntKind::I32.hi()) {
            Some(v) => r matches Ok(x) && x == v,
            None => r is Err,
        },
{
    text.parse::<i32>()
}

/// `str::parse::<i64>` reads an optional `+` or `-` and then decimal digits, and
/// fails on any other text and on a number out of range.
#[verifier::external_body]
pub(crate) fn parse_i64(text: &str) -> (r: Result<i64, core::num::ParseIntError>)
    ensures
        match parse_int(text.spec_bytes(), IntKind::I64.lo(), IntKind::I64.hi()) {
            Some(v) => r matches Ok(x) && x == v,
            None => r is Err,
        },
{
    text.parse::<i64>()
}

/// The message of `core::num::ParseIntError`, which says what is wrong with the
/// text. Nothing is claimed of it.
#[verifier::external_body]
pub(crate) fn parse_error_text(e: &core::num::ParseIntError) -> (r: String) {
    e.to_string()
}

/// Appends the digits of `n` to `out`.
fn push_digits(n: u128, out: &mut Vec<u8>)
    ensures
        final(out)@ == old(out)@ + digits_of(n as nat),
    decreases n,
{
    if n >= 10 {
        push_digits(n / 10, out);
    }
    let d: u8 = (n % 10) as u8;
    out.push(('0' as u8) + d);
    proof {
        if n >= 10 {
            assert(final(out)@ =~= old(out)@ + digits_of(n as nat));
        } else {
            assert(final(out)@ =~= old(out)@ + digits_of(n as nat));
        }
    }
}

/// Writes an unsigned number as decimal text.
pub fn format_unsigned(v: u64) -> (r: Vec<u8>)
    ensures
        r@ == decimal(v as int),
{
    format_decimal(v as i128)
}

/// Writes a signed number as decimal text.
pub fn format_signed(v: i64) -> (r: Vec<u8>)
    ensures
        r@ == decimal(v as int),
{
    format_decimal(v as i128)
}

/// Writes `v` as decimal text.
fn format_decimal(v: i128) -> (r: Vec<u8>)
    requires
        i64::MIN <= v <= u64::MAX,
    ensures
        r@ == decimal(v as int),
{
    let mut out: Vec<u8> = Vec::new();
    if v < 0 {
        out.push(('-' as u8));
        push_digits((-v) as u128, &mut out);
    } else {
        push_digits(v as u128, &mut out);
    }
    assert(out@ =~= decimal(v as int));
    out
}

} // verus!
