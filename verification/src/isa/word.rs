//! Little-endian instruction words.
use super::error::{trap_error_kind, trap_message, IsaError, IsaErrorKind, TrapKind};
use crate::bytes::{le32, le_bytes, push_le_u32};
use crate::text::{cat, owned, trim, trimmed};
use vstd::prelude::*;

verus! {

/// `e` is the error trap `t` becomes.
pub open spec fn is_trap_error(e: IsaError, t: TrapKind) -> bool {
    e.kind == trap_error_kind(t) && e.message@ == trap_message(t)
}

/// The word at byte `pc`, or the trap fetching it raises.
pub open spec fn fetch_spec(code: Seq<u8>, pc: u32) -> Result<u32, TrapKind> {
    if pc % 4 != 0 {
        Err(TrapKind::MisalignedPc { pc })
    } else if pc + 4 > code.len() {
        Err(TrapKind::FetchOutOfBounds { pc, len: code.len() as usize })
    } else {
        Ok(le32(code, pc as int) as u32)
    }
}

/// Read one little-endian word at byte offset `pc`.
pub fn fetch_word(code: &[u8], pc: u32) -> (r: Result<u32, IsaError>)
    ensures
        match fetch_spec(code@, pc) {
            Ok(w) => r == Ok::<u32, IsaError>(w),
            Err(t) => r matches Err(e) && is_trap_error(e, t),
        },
{
    match fetch_trap(code, pc) {
        Ok(w) => Ok(w),
        Err(t) => Err(t.to_error()),
    }
}

/// The word at `pc`, or the trap that stops the fetch.
pub fn fetch_trap(code: &[u8], pc: u32) -> (r: Result<u32, TrapKind>)
    ensures
        r == fetch_spec(code@, pc),
{
    if pc % 4 != 0 {
        return Err(TrapKind::MisalignedPc { pc });
    }
    let off = pc as usize;
    if off >= code.len() || code.len() - off < 4 {
        return Err(TrapKind::FetchOutOfBounds { pc, len: code.len() });
    }
    Ok(crate::bytes::le_u32_at(code, off))
}

/// Value of a hexadecimal digit, either case.
pub open spec fn hex_digit(c: char) -> Option<nat> {
    if '0' <= c && c <= '9' {
        Some((c as nat - '0' as nat) as nat)
    } else if 'a' <= c && c <= 'f' {
        Some((c as nat - 'a' as nat + 10) as nat)
    } else if 'A' <= c && c <= 'F' {
        Some((c as nat - 'A' as nat + 10) as nat)
    } else {
        None
    }
}

/// Value of a string of hexadecimal digits.
pub open spec fn hex_value(s: Seq<char>) -> Option<nat>
    decreases s.len(),
{
    if s.len() == 0 {
        Some(0)
    } else {
        match (hex_value(s.drop_last()), hex_digit(s.last())) {
            (Some(v), Some(d)) => Some(v * 16 + d),
            _ => None,
        }
    }
}

/// `u32::from_str_radix(s, 16)`: an optional `+`, then at least one hex
/// digit, with a value that fits in 32 bits.
pub open spec fn radix16_u32(s: Seq<char>) -> Option<u32> {
    let body = if s.len() > 0 && s[0] == '+' { s.drop_first() } else { s };
    if body.len() == 0 {
        None
    } else {
        match hex_value(body) {
            Some(v) => if v <= u32::MAX { Some(v as u32) } else { None },
            None => None,
        }
    }
}

/// The digits of a hex word: trimmed, then without a `0x` / `0X` prefix.
pub open spec fn hex_word_body(s: Seq<char>) -> Seq<char> {
    let t = trimmed(s);
    if t.len() >= 2 && t[0] == '0' && (t[1] == 'x' || t[1] == 'X') {
        t.subrange(2, t.len() as int)
    } else {
        t
    }
}

/// Parse a hex word (`0xbf800000` or `bf800000`).
pub fn parse_hex_word(s: &str) -> (r: Result<u32, IsaError>)
    ensures
        match radix16_u32(hex_word_body(s@)) {
            Some(v) => r == Ok::<u32, IsaError>(v),
            None => r matches Err(e) && e.kind == IsaErrorKind::Config,
        },
{
    let t = trim(s);
    let n = t.unicode_len();
    let body = if n >= 2 && t.get_char(0) == '0' && (t.get_char(1) == 'x' || t.get_char(1) == 'X') {
        t.substring_char(2, n)
    } else {
        t
    };
    let m = body.unicode_len();
    let mut i: usize = 0;
    if m > 0 && body.get_char(0) == '+' {
        i = 1;
    }
    let ghost digits = body@.subrange(i as int, m as int);
    assert(digits == if body@.len() > 0 && body@[0] == '+' { body@.drop_first() } else { body@ });
    let bad = IsaError::new(IsaErrorKind::Config, cat(cat(owned("invalid hex instruction word '"), s), "'").as_str())
        .with_remediation("expected 8 hex digits, e.g. 0xbf800000");
    assert(body@ == hex_word_body(s@));
    if i == m {
        assert(digits.len() == 0);
        return Err(bad);
    }
    let start = i;
    let mut v: u64 = 0;
    while i < m
        invariant
            start <= i <= m,
            m == body@.len(),
            body@ == hex_word_body(s@),
            digits == (if body@.len() > 0 && body@[0] == '+' { body@.drop_first() } else { body@ }),
            digits.len() > 0,
            bad.kind == IsaErrorKind::Config,
            digits == body@.subrange(start as int, m as int),
            hex_value(body@.subrange(start as int, i as int)) == Some(v as nat),
            v <= u32::MAX,
        decreases m - i,
    {
        assert(body@.subrange(start as int, i + 1).drop_last() =~= body@.subrange(start as int, i as int));
        let c = body.get_char(i);
        let d: u64 = if '0' <= c && c <= '9' {
            (c as u64) - ('0' as u64)
        } else if 'a' <= c && c <= 'f' {
            (c as u64) - ('a' as u64) + 10
        } else if 'A' <= c && c <= 'F' {
            (c as u64) - ('A' as u64) + 10
        } else {
            proof { lemma_hex_none_extends(body@.subrange(start as int, m as int), (i - start) as int); }
            return Err(bad);
        };
        let nv = v * 16 + d;
        if nv > u32::MAX as u64 {
            proof {
                if hex_value(digits) is Some {
                    lemma_hex_prefix_le(digits, (i + 1 - start) as int);
                    assert(digits.subrange(0, (i + 1 - start) as int) =~= body@.subrange(start as int, i + 1));
                }
            }
            return Err(bad);
        }
        v = nv;
        i = i + 1;
    }
    assert(body@.subrange(start as int, m as int) =~= digits);
    Ok(v as u32)
}

/// A non-digit anywhere makes the whole string invalid.
proof fn lemma_hex_none_extends(s: Seq<char>, k: int)
    requires
        0 <= k < s.len(),
        hex_digit(s[k]) is None,
    ensures
        hex_value(s) is None,
    decreases s.len(),
{
    if k < s.len() - 1 {
        assert(s.drop_last()[k] == s[k]);
        lemma_hex_none_extends(s.drop_last(), k);
    }
}

/// The value of a valid digit string bounds the value of each prefix.
proof fn lemma_hex_prefix_le(s: Seq<char>, k: int)
    requires
        0 <= k <= s.len(),
        hex_value(s) is Some,
    ensures
        hex_value(s.subrange(0, k)) matches Some(v) && v <= hex_value(s)->0,
    decreases s.len(),
{
    if k == s.len() {
        assert(s.subrange(0, k) =~= s);
    } else {
        assert(s.drop_last().subrange(0, k) =~= s.subrange(0, k));
        lemma_hex_prefix_le(s.drop_last(), k);
    }
}

/// A word as four little-endian bytes.
pub fn word_to_le_bytes(word: u32) -> (r: [u8; 4])
    ensures
        r@ == le_bytes(word as int, 4),
{
    let mut v: Vec<u8> = Vec::new();
    push_le_u32(&mut v, word);
    assert(v@ =~= le_bytes(word as int, 4));
    [v[0], v[1], v[2], v[3]]
}

/// Concatenated little-endian bytes of `words`.
pub open spec fn code_of(words: Seq<u32>) -> Seq<u8>
    decreases words.len(),
{
    if words.len() == 0 {
        Seq::empty()
    } else {
        code_of(words.drop_last()) + le_bytes(words.last() as int, 4)
    }
}

/// A code buffer from words, each as four little-endian bytes.
pub fn words_to_code(words: &[u32]) -> (r: Vec<u8>)
    ensures
        r@ == code_of(words@),
{
    let mut out: Vec<u8> = Vec::new();
    let mut i: usize = 0;
    while i < words.len()
        invariant
            i <= words@.len(),
            out@ == code_of(words@.subrange(0, i as int)),
        decreases words@.len() - i,
    {
        push_le_u32(&mut out, words[i]);
        i = i + 1;
        assert(words@.subrange(0, i as int).drop_last() =~= words@.subrange(0, i - 1));
    }
    assert(words@.subrange(0, words@.len() as int) =~= words@);
    out
}

proof fn lemma_code_of_len(words: Seq<u32>)
    ensures
        code_of(words).len() == 4 * words.len(),
    decreases words.len(),
{
    if words.len() > 0 {
        lemma_code_of_len(words.drop_last());
    }
}

/// Fetching word `i` of a buffer built by `words_to_code` gives back word
/// `i`: the two functions are inverse on aligned, in-range offsets.
pub proof fn lemma_fetch_words_to_code(words: Seq<u32>, i: int)
    requires
        0 <= i < words.len(),
        4 * words.len() <= u32::MAX,
    ensures
        fetch_spec(code_of(words), (4 * i) as u32) == Ok::<u32, TrapKind>(words[i]),
    decreases words.len(),
{
    lemma_code_of_len(words);
    lemma_code_of_len(words.drop_last());
    let c = code_of(words);
    let p = code_of(words.drop_last());
    if i == words.len() - 1 {
        crate::bytes::lemma_le32_of_bytes(words[i]);
        let b = le_bytes(words[i] as int, 4);
        assert(c[4 * i] == b[0] && c[4 * i + 1] == b[1] && c[4 * i + 2] == b[2] && c[4 * i + 3] == b[3]);
    } else {
        lemma_fetch_words_to_code(words.drop_last(), i);
        assert(c[4 * i] == p[4 * i] && c[4 * i + 1] == p[4 * i + 1] && c[4 * i + 2] == p[4 * i + 2] && c[4 * i + 3]
            == p[4 * i + 3]);
    }
}

} // verus!
