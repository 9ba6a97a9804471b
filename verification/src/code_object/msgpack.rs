//! Bounded MessagePack decoder for AMDHSA metadata maps.
//!
//! Floating-point values are carried as their raw IEEE-754 bit patterns
//! (`F32` / `F64`); the metadata this crate reads never holds floats.
use super::error::{CodeObjectError, CodeObjectErrorKind};
use crate::bytes::{be16, be32, be64, be_u16_at, be_u32_at, be_u64_at};
use crate::text::{cat, dec_u64, owned, utf8_str};
use vstd::prelude::*;

verus! {

pub const MAX_DEPTH: usize = 32;
pub const MAX_NODES: usize = 50000;
pub const MAX_STRING: usize = 4096;
pub const MAX_ARRAY: usize = 4096;
pub const MAX_MAP: usize = 4096;

/// A decoded MessagePack value. Map entries keep first-insertion order;
/// a repeated key replaces the earlier value in place.
#[derive(Debug)]
pub enum Value {
    Nil,
    Bool(bool),
    U64(u64),
    I64(i64),
    /// Raw bits of a MessagePack float32.
    F32(u32),
    /// Raw bits of a MessagePack float64.
    F64(u64),
    String(String),
    Array(Vec<Value>),
    Dict(Vec<(String, Value)>),
}

/// Mathematical model of a [`Value`].
pub enum ValueView {
    Nil,
    Bool(bool),
    U64(u64),
    I64(i64),
    F32(u32),
    F64(u64),
    Str(Seq<char>),
    Array(Seq<ValueView>),
    Dict(Seq<(Seq<char>, ValueView)>),
}

impl Value {
    pub open spec fn view(self) -> ValueView
        decreases self,
    {
        match self {
            Value::Nil => ValueView::Nil,
            Value::Bool(b) => ValueView::Bool(b),
            Value::U64(n) => ValueView::U64(n),
            Value::I64(n) => ValueView::I64(n),
            Value::F32(n) => ValueView::F32(n),
            Value::F64(n) => ValueView::F64(n),
            Value::String(s) => ValueView::Str(s@),
            Value::Array(v) => ValueView::Array(view_values(v@)),
            Value::Dict(m) => ValueView::Dict(view_entries(m@)),
        }
    }
}

pub open spec fn view_values(s: Seq<Value>) -> Seq<ValueView>
    decreases s,
{
    if s.len() == 0 {
        Seq::empty()
    } else {
        view_values(s.drop_last()).push(s.last().view())
    }
}

pub open spec fn view_entries(s: Seq<(String, Value)>) -> Seq<(Seq<char>, ValueView)>
    decreases s,
{
    if s.len() == 0 {
        Seq::empty()
    } else {
        view_entries(s.drop_last()).push((s.last().0@, s.last().1.view()))
    }
}

/// Insert into an entry list: replace the value of an existing key, else append.
pub open spec fn entries_insert(m: Seq<(Seq<char>, ValueView)>, k: Seq<char>, v: ValueView) -> Seq<(Seq<char>, ValueView)> {
    if exists|i: int| 0 <= i < m.len() && m[i].0 == k {
        let i = choose|i: int| 0 <= i < m.len() && m[i].0 == k;
        m.update(i, (k, v))
    } else {
        m.push((k, v))
    }
}

/// No two entries share a key.
pub open spec fn keys_distinct(m: Seq<(Seq<char>, ValueView)>) -> bool {
    forall|i: int, j: int| 0 <= i < m.len() && 0 <= j < m.len() && i != j ==> m[i].0 != m[j].0
}

/// Decoder outcome: value, next position and node count, or the error kind.
pub enum Decoded {
    Done(ValueView, int, int),
    Fail(CodeObjectErrorKind),
}

/// Signed value of a two's-complement number of `bits` bits.
pub open spec fn signed(v: int, bits: nat) -> int {
    if v >= crate::bytes::pow256((bits / 8) as nat) / 2 {
        v - crate::bytes::pow256((bits / 8) as nat)
    } else {
        v
    }
}

/// Decode a string of `len` bytes at `pos`.
pub open spec fn decode_str(d: Seq<u8>, pos: int, len: int, nodes: int) -> Decoded {
    if len > MAX_STRING {
        Decoded::Fail(CodeObjectErrorKind::LimitExceeded)
    } else if pos + len > d.len() {
        Decoded::Fail(CodeObjectErrorKind::MsgPack)
    } else if !vstd::utf8::valid_utf8(d.subrange(pos, pos + len)) {
        Decoded::Fail(CodeObjectErrorKind::MsgPack)
    } else {
        Decoded::Done(
            ValueView::Str(vstd::utf8::decode_utf8(d.subrange(pos, pos + len))),
            pos + len,
            nodes,
        )
    }
}

/// Decode the MessagePack value at `pos` with nesting `depth` and `nodes` visited.
pub open spec fn decode_value(d: Seq<u8>, pos: int, depth: int, nodes: int) -> Decoded
    decreases d.len() - pos, 1int,
{
    if depth > MAX_DEPTH {
        Decoded::Fail(CodeObjectErrorKind::LimitExceeded)
    } else if nodes + 1 > MAX_NODES {
        Decoded::Fail(CodeObjectErrorKind::LimitExceeded)
    } else if pos < 0 || pos >= d.len() {
        Decoded::Fail(CodeObjectErrorKind::MsgPack)
    } else {
        let n = nodes + 1;
        let b = d[pos];
        let p = pos + 1;
        if b == 0xc0 {
            Decoded::Done(ValueView::Nil, p, n)
        } else if b == 0xc2 {
            Decoded::Done(ValueView::Bool(false), p, n)
        } else if b == 0xc3 {
            Decoded::Done(ValueView::Bool(true), p, n)
        } else if b <= 0x7f {
            Decoded::Done(ValueView::U64(b as u64), p, n)
        } else if b >= 0xe0 {
            Decoded::Done(ValueView::I64((b - 256) as i64), p, n)
        } else if b == 0xcc || b == 0xd0 || b == 0xd9 {
            if p + 1 > d.len() {
                Decoded::Fail(CodeObjectErrorKind::MsgPack)
            } else if b == 0xcc {
                Decoded::Done(ValueView::U64(d[p] as u64), p + 1, n)
            } else if b == 0xd0 {
                Decoded::Done(ValueView::I64(signed(d[p] as int, 8) as i64), p + 1, n)
            } else {
                decode_str(d, p + 1, d[p] as int, n)
            }
        } else if b == 0xcd || b == 0xd1 || b == 0xda || b == 0xdc || b == 0xde {
            if p + 2 > d.len() {
                Decoded::Fail(CodeObjectErrorKind::MsgPack)
            } else if b == 0xcd {
                Decoded::Done(ValueView::U64(be16(d, p) as u64), p + 2, n)
            } else if b == 0xd1 {
                Decoded::Done(ValueView::I64(signed(be16(d, p), 16) as i64), p + 2, n)
            } else if b == 0xda {
                decode_str(d, p + 2, be16(d, p), n)
            } else if b == 0xdc {
                decode_array(d, p + 2, depth + 1, n, be16(d, p), Seq::empty())
            } else {
                decode_map(d, p + 2, depth + 1, n, be16(d, p), Seq::empty())
            }
        } else if b == 0xce || b == 0xd2 || b == 0xca || b == 0xdb || b == 0xdd || b == 0xdf {
            if p + 4 > d.len() {
                Decoded::Fail(CodeObjectErrorKind::MsgPack)
            } else if b == 0xce {
                Decoded::Done(ValueView::U64(be32(d, p) as u64), p + 4, n)
            } else if b == 0xd2 {
                Decoded::Done(ValueView::I64(signed(be32(d, p), 32) as i64), p + 4, n)
            } else if b == 0xca {
                Decoded::Done(ValueView::F32(be32(d, p) as u32), p + 4, n)
            } else if b == 0xdb {
                decode_str(d, p + 4, be32(d, p), n)
            } else if b == 0xdd {
                decode_array(d, p + 4, depth + 1, n, be32(d, p), Seq::empty())
            } else {
                decode_map(d, p + 4, depth + 1, n, be32(d, p), Seq::empty())
            }
        } else if b == 0xcf || b == 0xd3 || b == 0xcb {
            if p + 8 > d.len() {
                Decoded::Fail(CodeObjectErrorKind::MsgPack)
            } else if b == 0xcf {
                Decoded::Done(ValueView::U64(be64(d, p) as u64), p + 8, n)
            } else if b == 0xd3 {
                Decoded::Done(ValueView::I64(signed(be64(d, p), 64) as i64), p + 8, n)
            } else {
                Decoded::Done(ValueView::F64(be64(d, p) as u64), p + 8, n)
            }
        } else if 0xa0 <= b <= 0xbf {
            decode_str(d, p, b - 0xa0, n)
        } else if 0x90 <= b <= 0x9f {
            decode_array(d, p, depth + 1, n, b - 0x90, Seq::empty())
        } else if 0x80 <= b <= 0x8f {
            decode_map(d, p, depth + 1, n, b - 0x80, Seq::empty())
        } else {
            Decoded::Fail(CodeObjectErrorKind::MsgPack)
        }
    }
}

/// Decode `count` more array items at `pos` (item depth `depth`), after `acc`.
pub open spec fn decode_array(d: Seq<u8>, pos: int, depth: int, nodes: int, count: int, acc: Seq<ValueView>) -> Decoded
    decreases d.len() - pos, 2int,
{
    if count > MAX_ARRAY && acc.len() == 0 {
        Decoded::Fail(CodeObjectErrorKind::LimitExceeded)
    } else if count <= 0 {
        Decoded::Done(ValueView::Array(acc), pos, nodes)
    } else if pos < 0 || pos > d.len() {
        Decoded::Fail(CodeObjectErrorKind::MsgPack)
    } else {
        match decode_value(d, pos, depth, nodes) {
            Decoded::Fail(k) => Decoded::Fail(k),
            Decoded::Done(v, p2, n2) => if p2 <= pos || p2 > d.len() {
                Decoded::Fail(CodeObjectErrorKind::MsgPack)
            } else {
                decode_array(d, p2, depth, n2, count - 1, acc.push(v))
            },
        }
    }
}

/// Decode `count` more map entries at `pos` (key/value depth `depth`), after `acc`.
pub open spec fn decode_map(d: Seq<u8>, pos: int, depth: int, nodes: int, count: int, acc: Seq<(Seq<char>, ValueView)>) -> Decoded
    decreases d.len() - pos, 2int,
{
    if count > MAX_MAP && acc.len() == 0 {
        Decoded::Fail(CodeObjectErrorKind::LimitExceeded)
    } else if count <= 0 {
        Decoded::Done(ValueView::Dict(acc), pos, nodes)
    } else if pos < 0 || pos > d.len() {
        Decoded::Fail(CodeObjectErrorKind::MsgPack)
    } else {
        match decode_value(d, pos, depth, nodes) {
            Decoded::Fail(k) => Decoded::Fail(k),
            Decoded::Done(kv, p2, n2) => match kv {
                ValueView::Str(key) => if p2 <= pos || p2 > d.len() {
                    Decoded::Fail(CodeObjectErrorKind::MsgPack)
                } else {
                    match decode_value(d, p2, depth, n2) {
                        Decoded::Fail(k) => Decoded::Fail(k),
                        Decoded::Done(v, p3, n3) => if p3 <= p2 || p3 > d.len() {
                            Decoded::Fail(CodeObjectErrorKind::MsgPack)
                        } else {
                            decode_map(d, p3, depth, n3, count - 1, entries_insert(acc, key, v))
                        },
                    }
                },
                _ => Decoded::Fail(CodeObjectErrorKind::MsgPack),
            },
        }
    }
}

/// The result `parse` gives for `d`: the root value must consume every byte.
pub open spec fn parse_spec(d: Seq<u8>) -> Result<ValueView, CodeObjectErrorKind> {
    match decode_value(d, 0, 0, 0) {
        Decoded::Fail(k) => Err(k),
        Decoded::Done(v, p, _) => if p == d.len() {
            Ok(v)
        } else {
            Err(CodeObjectErrorKind::MsgPack)
        },
    }
}

fn msgpack_err(detail: &str) -> (e: CodeObjectError)
    ensures
        e.spec_kind() == CodeObjectErrorKind::MsgPack,
{
    CodeObjectError::MsgPack { detail: owned(detail) }
}

fn limit_err(detail: &str) -> (e: CodeObjectError)
    ensures
        e.spec_kind() == CodeObjectErrorKind::LimitExceeded,
{
    CodeObjectError::LimitExceeded { detail: owned(detail) }
}

fn i64_from_u8(b: u8) -> (r: i64)
    ensures
        r == signed(b as int, 8),
{
    proof { reveal_with_fuel(crate::bytes::pow256, 2); }
    if b >= 128 { (b as i64) - 256 } else { b as i64 }
}

fn i64_from_u16(b: u16) -> (r: i64)
    ensures
        r == signed(b as int, 16),
{
    proof { reveal_with_fuel(crate::bytes::pow256, 3); }
    if b >= 32768 { (b as i64) - 65536 } else { b as i64 }
}

fn i64_from_u32(b: u32) -> (r: i64)
    ensures
        r == signed(b as int, 32),
{
    proof { reveal_with_fuel(crate::bytes::pow256, 5); }
    if b >= 2147483648 { (b as i64) - 4294967296 } else { b as i64 }
}

fn i64_from_u64(b: u64) -> (r: i64)
    ensures
        r == signed(b as int, 64),
{
    proof { reveal_with_fuel(crate::bytes::pow256, 9); }
    if b >= 9223372036854775808 {
        ((b - 9223372036854775808) as i64) + i64::MIN
    } else {
        b as i64
    }
}

fn parse_str(d: &[u8], pos: usize, len: usize, nodes: usize) -> (r: Result<(Value, usize, usize), CodeObjectError>)
    requires
        pos <= d@.len(),
    ensures
        match decode_str(d@, pos as int, len as int, nodes as int) {
            Decoded::Done(v, p, n) => r matches Ok((val, rp, rn)) && val.view() == v && rp == p && rn == n,
            Decoded::Fail(k) => r matches Err(e) && e.spec_kind() == k,
        },
{
    if len > MAX_STRING {
        let dd = cat(owned("string len "), dec_u64(len as u64).as_str());
        return Err(CodeObjectError::LimitExceeded { detail: cat(dd, " > 4096") });
    }
    if d.len() - pos < len {
        return Err(msgpack_err("truncated"));
    }
    let bytes = &d[pos..pos + len];
    match utf8_str(bytes) {
        Some(s) => Ok((Value::String(s.to_owned()), pos + len, nodes)),
        None => Err(msgpack_err("string not utf8")),
    }
}

/// Decode the value at `pos`; returns the value, the next position and node count.
fn parse_value(d: &[u8], pos: usize, depth: usize, nodes: usize) -> (r: Result<(Value, usize, usize), CodeObjectError>)
    requires
        pos <= d@.len(),
        nodes <= MAX_NODES,
        depth <= MAX_DEPTH + 1,
    ensures
        match decode_value(d@, pos as int, depth as int, nodes as int) {
            Decoded::Done(v, p, n) => r matches Ok((val, rp, rn)) && val.view() == v && rp == p && rn == n,
            Decoded::Fail(k) => r matches Err(e) && e.spec_kind() == k,
        },
        r matches Ok((_, rp, rn)) ==> pos < rp <= d@.len() && nodes < rn <= MAX_NODES,
    decreases d@.len() - pos, 1int,
{
    if depth > MAX_DEPTH {
        return Err(limit_err("msgpack depth > 32"));
    }
    if nodes + 1 > MAX_NODES {
        return Err(limit_err("msgpack nodes > 50000"));
    }
    let len = d.len();
    if pos >= len {
        return Err(msgpack_err("truncated"));
    }
    let n = nodes + 1;
    let b = d[pos];
    let p = pos + 1;
    if b == 0xc0 {
        Ok((Value::Nil, p, n))
    } else if b == 0xc2 {
        Ok((Value::Bool(false), p, n))
    } else if b == 0xc3 {
        Ok((Value::Bool(true), p, n))
    } else if b <= 0x7f {
        Ok((Value::U64(b as u64), p, n))
    } else if b >= 0xe0 {
        Ok((Value::I64((b as i64) - 256), p, n))
    } else if b == 0xcc || b == 0xd0 || b == 0xd9 {
        if len - p < 1 {
            Err(msgpack_err("truncated"))
        } else if b == 0xcc {
            Ok((Value::U64(d[p] as u64), p + 1, n))
        } else if b == 0xd0 {
            Ok((Value::I64(i64_from_u8(d[p])), p + 1, n))
        } else {
            parse_str(d, p + 1, d[p] as usize, n)
        }
    } else if b == 0xcd || b == 0xd1 || b == 0xda || b == 0xdc || b == 0xde {
        if len - p < 2 {
            Err(msgpack_err("truncated"))
        } else {
            let v = be_u16_at(d, p);
            if b == 0xcd {
                Ok((Value::U64(v as u64), p + 2, n))
            } else if b == 0xd1 {
                Ok((Value::I64(i64_from_u16(v)), p + 2, n))
            } else if b == 0xda {
                parse_str(d, p + 2, v as usize, n)
            } else if b == 0xdc {
                parse_array(d, p + 2, depth + 1, n, v as usize)
            } else {
                parse_map(d, p + 2, depth + 1, n, v as usize)
            }
        }
    } else if b == 0xce || b == 0xd2 || b == 0xca || b == 0xdb || b == 0xdd || b == 0xdf {
        if len - p < 4 {
            Err(msgpack_err("truncated"))
        } else {
            let v = be_u32_at(d, p);
            if b == 0xce {
                Ok((Value::U64(v as u64), p + 4, n))
            } else if b == 0xd2 {
                Ok((Value::I64(i64_from_u32(v)), p + 4, n))
            } else if b == 0xca {
                Ok((Value::F32(v), p + 4, n))
            } else if b == 0xdb {
                parse_str(d, p + 4, v as usize, n)
            } else if b == 0xdd {
                parse_array(d, p + 4, depth + 1, n, v as usize)
            } else {
                parse_map(d, p + 4, depth + 1, n, v as usize)
            }
        }
    } else if b == 0xcf || b == 0xd3 || b == 0xcb {
        if len - p < 8 {
            Err(msgpack_err("truncated"))
        } else {
            let v = be_u64_at(d, p);
            if b == 0xcf {
                Ok((Value::U64(v), p + 8, n))
            } else if b == 0xd3 {
                Ok((Value::I64(i64_from_u64(v)), p + 8, n))
            } else {
                Ok((Value::F64(v), p + 8, n))
            }
        }
    } else if 0xa0 <= b && b <= 0xbf {
        parse_str(d, p, (b - 0xa0) as usize, n)
    } else if 0x90 <= b && b <= 0x9f {
        parse_array(d, p, depth + 1, n, (b - 0x90) as usize)
    } else if 0x80 <= b && b <= 0x8f {
        parse_map(d, p, depth + 1, n, (b - 0x80) as usize)
    } else {
        let dd = cat(owned("unsupported type byte 0x"), crate::text::hex_u64(b as u64).as_str());
        Err(CodeObjectError::MsgPack { detail: dd })
    }
}

fn parse_array(d: &[u8], pos: usize, depth: usize, nodes: usize, count: usize) -> (r: Result<(Value, usize, usize), CodeObjectError>)
    requires
        pos <= d@.len(),
        nodes <= MAX_NODES,
        depth <= MAX_DEPTH + 1,
    ensures
        match decode_array(d@, pos as int, depth as int, nodes as int, count as int, Seq::empty()) {
            Decoded::Done(v, p, n) => r matches Ok((val, rp, rn)) && val.view() == v && rp == p && rn == n,
            Decoded::Fail(k) => r matches Err(e) && e.spec_kind() == k,
        },
        r matches Ok((_, rp, rn)) ==> pos <= rp <= d@.len() && nodes <= rn <= MAX_NODES,
    decreases d@.len() - pos, 2int,
{
    if count > MAX_ARRAY {
        let dd = cat(owned("array len "), dec_u64(count as u64).as_str());
        return Err(CodeObjectError::LimitExceeded { detail: cat(dd, " > 4096") });
    }
    let mut items: Vec<Value> = Vec::new();
    let mut p = pos;
    let mut n = nodes;
    let mut left = count;
    while left > 0
        invariant
            pos <= p <= d@.len(),
            nodes <= n <= MAX_NODES,
            depth <= MAX_DEPTH + 1,
            count <= MAX_ARRAY,
            left <= count,
            left < count ==> items@.len() > 0,
            decode_array(d@, pos as int, depth as int, nodes as int, count as int, Seq::empty())
                == decode_array(d@, p as int, depth as int, n as int, left as int, view_values(items@)),
        decreases left,
    {
        let ghost before = view_values(items@);
        let ghost old_items = items@;
        let (v, p2, n2) = parse_value(d, p, depth, n)?;
        items.push(v);
        proof {
            assert(items@.drop_last() =~= old_items);
            assert(view_values(items@) == before.push(v.view()));
        }
        p = p2;
        n = n2;
        left = left - 1;
    }
    Ok((Value::Array(items), p, n))
}

fn find_key(entries: &Vec<(String, Value)>, key: &String) -> (r: Option<usize>)
    ensures
        r matches Some(i) ==> i < entries@.len() && entries@[i as int].0@ == key@ && forall|j: int|
            0 <= j < i ==> entries@[j].0@ != key@,
        r is None ==> forall|j: int| 0 <= j < entries@.len() ==> entries@[j].0@ != key@,
{
    let mut i: usize = 0;
    while i < entries.len()
        invariant
            i <= entries@.len(),
            forall|j: int| 0 <= j < i ==> entries@[j].0@ != key@,
        decreases entries@.len() - i,
    {
        if entries[i].0 == *key {
            return Some(i);
        }
        i = i + 1;
    }
    None
}

fn parse_map(d: &[u8], pos: usize, depth: usize, nodes: usize, count: usize) -> (r: Result<(Value, usize, usize), CodeObjectError>)
    requires
        pos <= d@.len(),
        nodes <= MAX_NODES,
        depth <= MAX_DEPTH + 1,
    ensures
        match decode_map(d@, pos as int, depth as int, nodes as int, count as int, Seq::empty()) {
            Decoded::Done(v, p, n) => r matches Ok((val, rp, rn)) && val.view() == v && rp == p && rn == n,
            Decoded::Fail(k) => r matches Err(e) && e.spec_kind() == k,
        },
        r matches Ok((_, rp, rn)) ==> pos <= rp <= d@.len() && nodes <= rn <= MAX_NODES,
    decreases d@.len() - pos, 2int,
{
    if count > MAX_MAP {
        let dd = cat(owned("map len "), dec_u64(count as u64).as_str());
        return Err(CodeObjectError::LimitExceeded { detail: cat(dd, " > 4096") });
    }
    let mut entries: Vec<(String, Value)> = Vec::new();
    let mut p = pos;
    let mut n = nodes;
    let mut left = count;
    while left > 0
        invariant
            pos <= p <= d@.len(),
            nodes <= n <= MAX_NODES,
            depth <= MAX_DEPTH + 1,
            count <= MAX_MAP,
            left <= count,
            left < count ==> entries@.len() > 0,
            keys_distinct(view_entries(entries@)),
            decode_map(d@, pos as int, depth as int, nodes as int, count as int, Seq::empty())
                == decode_map(d@, p as int, depth as int, n as int, left as int, view_entries(entries@)),
        decreases left,
    {
        let (kv, p2, n2) = parse_value(d, p, depth, n)?;
        let key = match kv {
            Value::String(s) => s,
            _ => {
                return Err(msgpack_err("map key not string"));
            },
        };
        let (v, p3, n3) = parse_value(d, p2, depth, n2)?;
        let ghost before = view_entries(entries@);
        let ghost old_entries = entries@;
        proof { lemma_view_entries_index(entries@); }
        match find_key(&entries, &key) {
            Some(i) => {
                entries.set(i, (key, v));
                proof {
                    lemma_view_entries_index(entries@);
                    assert(view_entries(entries@) =~= before.update(i as int, (key@, v.view())));
                    assert(before[i as int].0 == key@);
                    let c = choose|j: int| 0 <= j < before.len() && before[j].0 == key@;
                    assert(c == i);
                    assert(entries_insert(before, key@, v.view()) == before.update(i as int, (key@, v.view())));
                    assert(keys_distinct(view_entries(entries@)));
                }
            },
            None => {
                entries.push((key, v));
                proof {
                    assert(entries@.drop_last() =~= old_entries);
                    assert(view_entries(entries@) == before.push((key@, v.view())));
                    lemma_view_entries_index(entries@);
                    assert(keys_distinct(view_entries(entries@)));
                }
            },
        }
        p = p3;
        n = n3;
        left = left - 1;
    }
    Ok((Value::Dict(entries), p, n))
}

pub proof fn lemma_view_entries_index(s: Seq<(String, Value)>)
    ensures
        view_entries(s).len() == s.len(),
        forall|i: int| 0 <= i < s.len() ==> #[trigger] view_entries(s)[i] == (s[i].0@, s[i].1.view()),
    decreases s.len(),
{
    if s.len() > 0 {
        lemma_view_entries_index(s.drop_last());
    }
}

pub proof fn lemma_view_values_index(s: Seq<Value>)
    ensures
        view_values(s).len() == s.len(),
        forall|i: int| 0 <= i < s.len() ==> #[trigger] view_values(s)[i] == s[i].view(),
    decreases s.len(),
{
    if s.len() > 0 {
        lemma_view_values_index(s.drop_last());
    }
}

/// Parse a single MessagePack value from `data`; the root must consume every byte.
pub fn parse(data: &[u8]) -> (r: Result<Value, CodeObjectError>)
    ensures
        match parse_spec(data@) {
            Ok(v) => r matches Ok(val) && val.view() == v,
            Err(k) => r matches Err(e) && e.spec_kind() == k,
        },
{
    let (v, p, _n) = parse_value(data, 0, 0, 0)?;
    if p != data.len() {
        let dd = cat(owned("trailing "), dec_u64((data.len() - p) as u64).as_str());
        return Err(CodeObjectError::MsgPack { detail: cat(dd, " bytes") });
    }
    Ok(v)
}

} // verus!
