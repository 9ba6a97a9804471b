//! Decimal and hexadecimal rendering of integers, as used in diagnostics.
use vstd::prelude::*;

verus! {

/// The ASCII digit for `d` (0..=15), lowercase for values above 9.
pub open spec fn digit_char(d: nat) -> char {
    if d < 10 {
        (('0' as nat) + d) as char
    } else {
        (('a' as nat) + d - 10) as char
    }
}

/// Decimal digits of `n`, most significant first, with no leading zeros.
pub open spec fn dec_chars(n: nat) -> Seq<char>
    decreases n,
{
    if n < 10 {
        seq![digit_char(n)]
    } else {
        dec_chars(n / 10).push(digit_char(n % 10))
    }
}

/// Lowercase hexadecimal digits of `n`, most significant first, no prefix.
pub open spec fn hex_chars(n: nat) -> Seq<char>
    decreases n,
{
    if n < 16 {
        seq![digit_char(n)]
    } else {
        hex_chars(n / 16).push(digit_char(n % 16))
    }
}

/// Signed decimal rendering: a leading `-` for negative values.
pub open spec fn signed_dec_chars(n: int) -> Seq<char> {
    if n < 0 {
        seq!['-'] + dec_chars((-n) as nat)
    } else {
        dec_chars(n as nat)
    }
}

/// `std`'s `Display` for `u64`: the decimal digits of the value.
#[verifier::external_body]
pub(crate) fn dec_u64(v: u64) -> (s: String)
    ensures
        s@ == dec_chars(v as nat),
{
    format!("{}", v)
}

/// `std`'s `Display` for `i64`: optional minus sign, then the decimal digits.
#[verifier::external_body]
pub(crate) fn dec_i64(v: i64) -> (s: String)
    ensures
        s@ == signed_dec_chars(v as int),
{
    format!("{}", v)
}

/// `std`'s `LowerHex` for `u64`: lowercase hexadecimal digits, no prefix.
#[verifier::external_body]
pub(crate) fn hex_u64(v: u64) -> (s: String)
    ensures
        s@ == hex_chars(v as nat),
{
    format!("{:x}", v)
}

/// `std::str::from_utf8`: succeeds exactly on valid UTF-8, and the string
/// it returns is the decoding of the bytes.
#[verifier::external_body]
pub(crate) fn utf8_str<'a>(b: &'a [u8]) -> (r: Option<&'a str>)
    ensures
        r is Some <==> vstd::utf8::valid_utf8(b@),
        r matches Some(s) ==> s@ == vstd::utf8::decode_utf8(b@),
{
    std::str::from_utf8(b).ok()
}

/// Builds an owned string from a string slice.
pub fn owned(s: &str) -> (r: String)
    ensures
        r@ == s@,
{
    s.to_owned()
}

/// Concatenates a slice onto an owned string.
pub fn cat(a: String, b: &str) -> (r: String)
    ensures
        r@ == a@ + b@,
{
    let mut a = a;
    a.append(b);
    a
}

/// `n` zero characters.
pub open spec fn zero_chars(n: nat) -> Seq<char> {
    Seq::new(n, |i: int| '0')
}

/// Lowercase hexadecimal digits of `n`, left-padded with zeros to `width`.
pub open spec fn hex_padded(n: nat, width: nat) -> Seq<char> {
    let h = hex_chars(n);
    if h.len() < width {
        zero_chars((width - h.len()) as nat) + h
    } else {
        h
    }
}

/// `std`'s `LowerHex` for `u64` with a zero-padded minimum width; the
/// formatter takes run-time widths up to `u16::MAX` only.
#[verifier::external_body]
pub(crate) fn hex_u64_padded(v: u64, width: usize) -> (s: String)
    requires
        width <= 65535,
    ensures
        s@ == hex_padded(v as nat, width as nat),
{
    format!("{:0width$x}", v, width = width)
}

/// Concatenates an owned string onto an owned string.
pub fn cat_string(a: String, b: String) -> (r: String)
    ensures
        r@ == a@ + b@,
{
    cat(a, b.as_str())
}

/// What `str::trim` leaves of a string: the string without its leading and
/// trailing Unicode white space.
pub uninterp spec fn trimmed(s: Seq<char>) -> Seq<char>;

/// `str::trim`.
#[verifier::external_body]
pub(crate) fn trim(s: &str) -> (r: &str)
    ensures
        r@ == trimmed(s@),
{
    s.trim()
}

/// Character-wise string equality.
pub fn str_eq(a: &str, b: &str) -> (r: bool)
    ensures
        r == (a@ == b@),
{
    let x = owned(a);
    let y = owned(b);
    x == y
}

/// Byte `n` of the UTF-8 encoding of `s` starts a character (or is the end).
pub open spec fn char_boundary(s: Seq<char>, n: nat) -> bool {
    n >= vstd::utf8::encode_utf8(s).len() || vstd::utf8::valid_utf8(vstd::utf8::encode_utf8(s).subrange(0, n as int))
}

/// The string made of the first `n` bytes of the UTF-8 encoding of `s`.
pub open spec fn byte_prefix(s: Seq<char>, n: nat) -> Seq<char> {
    let b = vstd::utf8::encode_utf8(s);
    if n >= b.len() {
        s
    } else {
        vstd::utf8::decode_utf8(b.subrange(0, n as int))
    }
}

/// `String::truncate`: keeps the first `n` bytes; no effect when the string
/// is not longer. The caller keeps `n` on a character boundary (the call
/// panics otherwise).
#[verifier::external_body]
pub(crate) fn truncate_bytes(s: String, n: usize) -> (r: String)
    requires
        char_boundary(s@, n as nat),
    ensures
        r@ == byte_prefix(s@, n as nat),
{
    let mut s = s;
    s.truncate(n);
    s
}

} // verus!
