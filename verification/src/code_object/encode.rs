//! MessagePack encoders used to build code-object fixtures (not a general
//! MessagePack library).
use super::msgpack::{
    decode_value, lemma_view_entries_index, lemma_view_values_index, parse_spec, view_entries, view_values, Decoded, Value,
    ValueView,
};
use crate::bytes::{
    be16, be32, be64, be_bytes, byte_of, lemma_be16_of_bytes, lemma_be32_of_bytes, lemma_be64_of_bytes, pow256,
};
use vstd::prelude::*;

verus! {

pub open spec fn enc_nil() -> Seq<u8> {
    seq![0xc0u8]
}

pub open spec fn enc_bool(v: bool) -> Seq<u8> {
    seq![if v { 0xc3u8 } else { 0xc2u8 }]
}

/// Smallest unsigned MessagePack encoding of `v`.
pub open spec fn enc_u64(v: int) -> Seq<u8> {
    if v <= 0x7f {
        seq![v as u8]
    } else if v <= 0xff {
        seq![0xccu8, v as u8]
    } else if v <= 0xffff {
        seq![0xcdu8] + be_bytes(v, 2)
    } else if v <= 0xffff_ffff {
        seq![0xceu8] + be_bytes(v, 4)
    } else {
        seq![0xcfu8] + be_bytes(v, 8)
    }
}

/// String header for a UTF-8 payload of `len` bytes (16-bit lengths wrap).
pub open spec fn enc_str_header(len: int) -> Seq<u8> {
    if len <= 31 {
        seq![(0xa0 + len) as u8]
    } else if len <= 255 {
        seq![0xd9u8, len as u8]
    } else {
        seq![0xdau8] + be_bytes(len % 65536, 2)
    }
}

pub open spec fn enc_str(b: Seq<u8>) -> Seq<u8> {
    enc_str_header(b.len() as int) + b
}

/// Array header for `n` items (16-bit counts wrap).
pub open spec fn enc_array_header(n: int) -> Seq<u8> {
    if n <= 15 {
        seq![(0x90 + n) as u8]
    } else {
        seq![0xdcu8] + be_bytes(n % 65536, 2)
    }
}

/// Map header for `n` entries (16-bit counts wrap).
pub open spec fn enc_map_header(n: int) -> Seq<u8> {
    if n <= 15 {
        seq![(0x80 + n) as u8]
    } else {
        seq![0xdeu8] + be_bytes(n % 65536, 2)
    }
}

pub open spec fn concat_all(items: Seq<Seq<u8>>) -> Seq<u8>
    decreases items.len(),
{
    if items.len() == 0 {
        Seq::empty()
    } else {
        concat_all(items.drop_last()) + items.last()
    }
}

pub open spec fn enc_entries(entries: Seq<(Seq<u8>, Seq<u8>)>) -> Seq<u8>
    decreases entries.len(),
{
    if entries.len() == 0 {
        Seq::empty()
    } else {
        enc_entries(entries.drop_last()) + enc_str(entries.last().0) + entries.last().1
    }
}

/// `[0xc0]`.
pub fn nil() -> (r: Vec<u8>)
    ensures
        r@ == enc_nil(),
{
    let mut o = Vec::new();
    o.push(0xc0);
    assert(o@ =~= enc_nil());
    o
}

/// `[0xc3]` for true, `[0xc2]` for false.
pub fn bool(v: bool) -> (r: Vec<u8>)
    ensures
        r@ == enc_bool(v),
{
    let mut o = Vec::new();
    o.push(if v { 0xc3 } else { 0xc2 });
    assert(o@ =~= enc_bool(v));
    o
}

fn push_be(o: &mut Vec<u8>, v: u64, n: usize)
    requires
        n == 2 || n == 4 || n == 8,
    ensures
        final(o)@ == old(o)@ + be_bytes(v as int, n as nat),
{
    let ghost start = o@;
    proof {
        reveal_with_fuel(pow256, 9);
    }
    let mut i: usize = n;
    while i > 0
        invariant
            i <= n,
            n == 2 || n == 4 || n == 8,
            o@ == start + be_bytes(v as int, n as nat).subrange(0, (n - i) as int),
        decreases i,
    {
        i = i - 1;
        let shift = (i as u64) * 8;
        let b = ((v >> shift) & 0xff) as u8;
        proof {
            assert(b == byte_of(v as int, i as nat)) by {
                lemma_shift_byte(v, i as nat);
            }
        }
        let ghost before = o@;
        o.push(b);
        assert(o@ =~= start + be_bytes(v as int, n as nat).subrange(0, (n - i) as int));
    }
    assert(be_bytes(v as int, n as nat).subrange(0, n as int) =~= be_bytes(v as int, n as nat));
}

proof fn lemma_shift_byte(v: u64, i: nat)
    requires
        i < 8,
    ensures
        ((v >> ((i as u64) * 8)) & 0xff) as u8 == byte_of(v as int, i),
{
    reveal_with_fuel(pow256, 9);
    let s = (i as u64) * 8;
    if i == 0 {
        assert((v >> 0u64) & 0xff == v % 256) by (bit_vector);
    } else if i == 1 {
        assert((v >> 8u64) & 0xff == (v / 256) % 256) by (bit_vector);
    } else if i == 2 {
        assert((v >> 16u64) & 0xff == (v / 65536) % 256) by (bit_vector);
    } else if i == 3 {
        assert((v >> 24u64) & 0xff == (v / 16777216) % 256) by (bit_vector);
    } else if i == 4 {
        assert((v >> 32u64) & 0xff == (v / 4294967296) % 256) by (bit_vector);
    } else if i == 5 {
        assert((v >> 40u64) & 0xff == (v / 1099511627776) % 256) by (bit_vector);
    } else if i == 6 {
        assert((v >> 48u64) & 0xff == (v / 281474976710656) % 256) by (bit_vector);
    } else {
        assert((v >> 56u64) & 0xff == (v / 72057594037927936) % 256) by (bit_vector);
    }
}

/// Smallest unsigned MessagePack encoding of `v`.
pub fn u64(v: u64) -> (r: Vec<u8>)
    ensures
        r@ == enc_u64(v as int),
{
    let mut o = Vec::new();
    if v <= 0x7f {
        o.push(v as u8);
    } else if v <= 0xff {
        o.push(0xcc);
        o.push(v as u8);
    } else if v <= 0xffff {
        o.push(0xcd);
        push_be(&mut o, v, 2);
    } else if v <= 0xffff_ffff {
        o.push(0xce);
        push_be(&mut o, v, 4);
    } else {
        o.push(0xcf);
        push_be(&mut o, v, 8);
    }
    assert(o@ =~= enc_u64(v as int));
    o
}

fn str_bytes(b: &[u8]) -> (r: Vec<u8>)
    ensures
        r@ == enc_str(b@),
{
    let mut o = Vec::new();
    let len = b.len();
    if len <= 31 {
        o.push((0xa0 + len) as u8);
    } else if len <= 255 {
        o.push(0xd9);
        o.push(len as u8);
    } else {
        o.push(0xda);
        push_be(&mut o, (len % 65536) as u64, 2);
    }
    let ghost h = o@;
    assert(h =~= enc_str_header(len as int));
    extend(&mut o, b);
    o
}

fn extend(o: &mut Vec<u8>, b: &[u8])
    ensures
        final(o)@ == old(o)@ + b@,
{
    let ghost start = o@;
    let mut i: usize = 0;
    while i < b.len()
        invariant
            i <= b@.len(),
            o@ == start + b@.subrange(0, i as int),
        decreases b@.len() - i,
    {
        o.push(b[i]);
        i = i + 1;
        assert(o@ =~= start + b@.subrange(0, i as int));
    }
    assert(b@.subrange(0, b@.len() as int) =~= b@);
}

/// MessagePack string: header then the UTF-8 bytes of `s`.
pub fn str(s: &str) -> (r: Vec<u8>)
    ensures
        r@ == enc_str(vstd::utf8::encode_utf8(s@)),
{
    str_bytes(s.as_bytes())
}

/// MessagePack array of already-encoded items.
pub fn array(items: &[Vec<u8>]) -> (r: Vec<u8>)
    ensures
        r@ == enc_array_header(items@.len() as int) + concat_all(items@.map_values(|x: Vec<u8>| x@)),
{
    let mut o = Vec::new();
    let n = items.len();
    if n <= 15 {
        o.push((0x90 + n) as u8);
    } else {
        o.push(0xdc);
        push_be(&mut o, (n % 65536) as u64, 2);
    }
    let ghost h = o@;
    assert(h =~= enc_array_header(n as int));
    let mut i: usize = 0;
    while i < n
        invariant
            n == items@.len(),
            i <= n,
            o@ == h + concat_all(items@.subrange(0, i as int).map_values(|x: Vec<u8>| x@)),
        decreases n - i,
    {
        extend(&mut o, items[i].as_slice());
        i = i + 1;
        assert(items@.subrange(0, i as int).map_values(|x: Vec<u8>| x@).drop_last()
            =~= items@.subrange(0, i - 1).map_values(|x: Vec<u8>| x@));
    }
    assert(items@.subrange(0, n as int) =~= items@);
    o
}

/// MessagePack map of string keys to already-encoded values.
pub fn map(entries: &[(String, Vec<u8>)]) -> (r: Vec<u8>)
    ensures
        r@ == enc_map_header(entries@.len() as int) + enc_entries(
            entries@.map_values(|e: (String, Vec<u8>)| (vstd::utf8::encode_utf8(e.0@), e.1@)),
        ),
{
    let mut o = Vec::new();
    let n = entries.len();
    if n <= 15 {
        o.push((0x80 + n) as u8);
    } else {
        o.push(0xde);
        push_be(&mut o, (n % 65536) as u64, 2);
    }
    let ghost h = o@;
    assert(h =~= enc_map_header(n as int));
    let mut i: usize = 0;
    while i < n
        invariant
            n == entries@.len(),
            i <= n,
            o@ == h + enc_entries(
                entries@.subrange(0, i as int).map_values(
                    |e: (String, Vec<u8>)| (vstd::utf8::encode_utf8(e.0@), e.1@),
                ),
            ),
        decreases n - i,
    {
        let k = str(entries[i].0.as_str());
        extend(&mut o, k.as_slice());
        extend(&mut o, entries[i].1.as_slice());
        i = i + 1;
        assert(entries@.subrange(0, i as int).map_values(
            |e: (String, Vec<u8>)| (vstd::utf8::encode_utf8(e.0@), e.1@),
        ).drop_last() =~= entries@.subrange(0, i - 1).map_values(
            |e: (String, Vec<u8>)| (vstd::utf8::encode_utf8(e.0@), e.1@),
        ));
    }
    assert(entries@.subrange(0, n as int) =~= entries@);
    o
}

/// Encoding of a value model; negative signed integers use the 8-byte form,
/// non-negative ones the unsigned forms, and floats encode as nil.
pub open spec fn enc_value(v: ValueView) -> Seq<u8>
    decreases v,
{
    match v {
        ValueView::Nil => enc_nil(),
        ValueView::Bool(b) => enc_bool(b),
        ValueView::U64(n) => enc_u64(n as int),
        ValueView::I64(n) => if n >= 0 {
            enc_u64(n as int)
        } else {
            seq![0xd3u8] + be_bytes(n + 18446744073709551616, 8)
        },
        ValueView::F32(_) => enc_nil(),
        ValueView::F64(_) => enc_nil(),
        ValueView::Str(s) => enc_str(vstd::utf8::encode_utf8(s)),
        ValueView::Array(items) => enc_array_header(items.len() as int) + enc_values(items),
        ValueView::Dict(es) => enc_map_header(es.len() as int) + enc_dict(es),
    }
}

pub open spec fn enc_values(items: Seq<ValueView>) -> Seq<u8>
    decreases items,
{
    if items.len() == 0 {
        Seq::empty()
    } else {
        enc_values(items.drop_last()) + enc_value(items.last())
    }
}

pub open spec fn enc_dict(es: Seq<(Seq<char>, ValueView)>) -> Seq<u8>
    decreases es,
{
    if es.len() == 0 {
        Seq::empty()
    } else {
        enc_dict(es.drop_last()) + enc_str(vstd::utf8::encode_utf8(es.last().0)) + enc_value(
            es.last().1,
        )
    }
}

fn i64_neg_bytes(o: &mut Vec<u8>, n: i64)
    requires
        n < 0,
    ensures
        final(o)@ == old(o)@ + seq![0xd3u8] + be_bytes(n + 18446744073709551616, 8),
{
    o.push(0xd3);
    let u: u64 = ((n as i128) + 18446744073709551616) as u64;
    push_be(o, u, 8);
}

fn append_value(o: &mut Vec<u8>, v: &Value)
    ensures
        final(o)@ == old(o)@ + enc_value(v.view()),
    decreases v,
{
    match v {
        Value::Nil => {
            let e = nil();
            extend(o, e.as_slice());
        },
        Value::Bool(b) => {
            let e = bool(*b);
            extend(o, e.as_slice());
        },
        Value::U64(n) => {
            let e = u64(*n);
            extend(o, e.as_slice());
        },
        Value::I64(n) => {
            if *n >= 0 {
                let e = u64(*n as u64);
                extend(o, e.as_slice());
            } else {
                i64_neg_bytes(o, *n);
            }
        },
        Value::F32(_) | Value::F64(_) => {
            let e = nil();
            extend(o, e.as_slice());
        },
        Value::String(s) => {
            let e = str(s.as_str());
            extend(o, e.as_slice());
        },
        Value::Array(items) => {
            let n = items.len();
            let mut h = Vec::new();
            if n <= 15 {
                h.push((0x90 + n) as u8);
            } else {
                h.push(0xdc);
                push_be(&mut h, (n % 65536) as u64, 2);
            }
            assert(h@ =~= enc_array_header(n as int));
            extend(o, h.as_slice());
            let ghost start = o@;
            proof { lemma_view_values_index(items@); }
            let mut i: usize = 0;
            while i < n
                invariant
                    n == items@.len(),
                    i <= n,
                    o@ == start + enc_values(view_values(items@).subrange(0, i as int)),
                    view_values(items@).len() == n,
                    forall|j: int| 0 <= j < n ==> #[trigger] view_values(items@)[j] == items@[j].view(),
                    *v == Value::Array(*items),
                decreases n - i,
            {
                proof {
                    assert(*items == (*v)->Array_0);
                    assert(decreases_to!(*v => (*v)->Array_0));
                    assert(decreases_to!(*items => items@));
                    assert(decreases_to!(items@ => items@[i as int]));
                }
                append_value(o, &items[i]);
                i = i + 1;
                assert(view_values(items@).subrange(0, i as int).drop_last() =~= view_values(items@).subrange(0, i - 1));
            }
            assert(view_values(items@).subrange(0, n as int) =~= view_values(items@));
        },
        Value::Dict(es) => {
            let n = es.len();
            let mut h = Vec::new();
            if n <= 15 {
                h.push((0x80 + n) as u8);
            } else {
                h.push(0xde);
                push_be(&mut h, (n % 65536) as u64, 2);
            }
            assert(h@ =~= enc_map_header(n as int));
            extend(o, h.as_slice());
            let ghost start = o@;
            proof { lemma_view_entries_index(es@); }
            let mut i: usize = 0;
            while i < n
                invariant
                    n == es@.len(),
                    i <= n,
                    o@ == start + enc_dict(view_entries(es@).subrange(0, i as int)),
                    view_entries(es@).len() == n,
                    forall|j: int| 0 <= j < n ==> #[trigger] view_entries(es@)[j] == (es@[j].0@, es@[j].1.view()),
                    *v == Value::Dict(*es),
                decreases n - i,
            {
                let k = str(es[i].0.as_str());
                extend(o, k.as_slice());
                proof {
                    assert(*es == (*v)->Dict_0);
                    assert(decreases_to!(*v => (*v)->Dict_0));
                    assert(decreases_to!(*es => es@));
                    assert(decreases_to!(es@ => es@[i as int]));
                    assert(decreases_to!(es@[i as int] => es@[i as int].1));
                }
                append_value(o, &es[i].1);
                i = i + 1;
                assert(view_entries(es@).subrange(0, i as int).drop_last() =~= view_entries(es@).subrange(0, i - 1));
            }
            assert(view_entries(es@).subrange(0, n as int) =~= view_entries(es@));
        },
    }
}

/// Encode a decoded value back to MessagePack bytes.
pub fn value(v: &Value) -> (r: Vec<u8>)
    ensures
        r@ == enc_value(v.view()),
{
    let mut o = Vec::new();
    append_value(&mut o, v);
    assert(o@ =~= enc_value(v.view()));
    o
}

/// Encode a key/value table as a MessagePack map, entries in table order.
pub fn map_from_btree(m: &Vec<(String, Value)>) -> (r: Vec<u8>)
    ensures
        r@ == enc_value(ValueView::Dict(view_entries(m@))),
{
    let mut o = Vec::new();
    let n = m.len();
    let mut h = Vec::new();
    if n <= 15 {
        h.push((0x80 + n) as u8);
    } else {
        h.push(0xde);
        push_be(&mut h, (n % 65536) as u64, 2);
    }
    assert(h@ =~= enc_map_header(n as int));
    extend(&mut o, h.as_slice());
    let ghost start = o@;
    proof { lemma_view_entries_index(m@); }
    let mut i: usize = 0;
    while i < n
        invariant
            n == m@.len(),
            i <= n,
            o@ == start + enc_dict(view_entries(m@).subrange(0, i as int)),
            view_entries(m@).len() == n,
            forall|j: int| 0 <= j < n ==> #[trigger] view_entries(m@)[j] == (m@[j].0@, m@[j].1.view()),
        decreases n - i,
    {
        let k = str(m[i].0.as_str());
        extend(&mut o, k.as_slice());
        append_value(&mut o, &m[i].1);
        i = i + 1;
        assert(view_entries(m@).subrange(0, i as int).drop_last() =~= view_entries(m@).subrange(0, i - 1));
    }
    assert(view_entries(m@).subrange(0, n as int) =~= view_entries(m@));
    assert(o@ =~= enc_value(ValueView::Dict(view_entries(m@))));
    o
}

/// Encoding then parsing gives the value back for nil, booleans and
/// unsigned integers up to 255, each in one or two bytes.
pub proof fn lemma_scalar_round_trip(b: bool, v: u64)
    ensures
        parse_spec(enc_nil()) == Ok::<ValueView, super::error::CodeObjectErrorKind>(ValueView::Nil),
        parse_spec(enc_bool(b)) == Ok::<ValueView, super::error::CodeObjectErrorKind>(ValueView::Bool(b)),
        v <= 0xff ==> parse_spec(enc_u64(v as int)) == Ok::<ValueView, super::error::CodeObjectErrorKind>(
            ValueView::U64(v),
        ),
        enc_nil().len() == 1,
        enc_bool(b).len() == 1,
        v <= 0xff ==> enc_u64(v as int).len() == if v <= 0x7f { 1int } else { 2int },
{
    if v <= 0x7f {
        assert(enc_u64(v as int)[0] == v as u8);
        assert(decode_value(enc_u64(v as int), 0, 0, 0) == Decoded::Done(ValueView::U64(v), 1, 1));
    } else if v <= 0xff {
        let e = enc_u64(v as int);
        assert(e[0] == 0xccu8 && e[1] == v as u8);
        assert(decode_value(e, 0, 0, 0) == Decoded::Done(ValueView::U64(v), 2, 1));
    }
}

/// Encoding then parsing gives a string back when its UTF-8 form has at
/// most 255 bytes.
pub proof fn lemma_str_round_trip(s: Seq<char>)
    requires
        vstd::utf8::encode_utf8(s).len() <= 255,
    ensures
        parse_spec(enc_value(ValueView::Str(s))) == Ok::<ValueView, super::error::CodeObjectErrorKind>(ValueView::Str(s)),
        enc_value(ValueView::Str(s)).len() == vstd::utf8::encode_utf8(s).len() + if vstd::utf8::encode_utf8(s).len()
            <= 31 {
            1int
        } else {
            2int
        },
{
    let b = vstd::utf8::encode_utf8(s);
    let e = enc_value(ValueView::Str(s));
    vstd::utf8::encode_utf8_valid_utf8(s);
    vstd::utf8::encode_utf8_decode_utf8(s);
    if b.len() <= 31 {
        assert(e[0] == (0xa0 + b.len()) as u8);
        assert(e.subrange(1, 1 + b.len() as int) =~= b);
        assert(decode_value(e, 0, 0, 0) == Decoded::Done(ValueView::Str(s), 1 + b.len() as int, 1));
    } else {
        assert(e[0] == 0xd9u8 && e[1] == b.len() as u8);
        assert(e.subrange(2, 2 + b.len() as int) =~= b);
        assert(decode_value(e, 0, 0, 0) == Decoded::Done(ValueView::Str(s), 2 + b.len() as int, 1));
    }
}

/// Every unsigned integer parses back from its encoding.
pub proof fn lemma_u64_round_trip(v: u64)
    ensures
        parse_spec(enc_u64(v as int)) == Ok::<ValueView, super::error::CodeObjectErrorKind>(ValueView::U64(v)),
{
    let e = enc_u64(v as int);
    if v <= 0xff {
        lemma_scalar_round_trip(false, v);
    } else if v <= 0xffff {
        lemma_be16_of_bytes(v as u16);
        assert(be16(e, 1) == be16(be_bytes(v as int, 2), 0));
        assert(decode_value(e, 0, 0, 0) == Decoded::Done(ValueView::U64(v), 3, 1));
    } else if v <= 0xffff_ffff {
        lemma_be32_of_bytes(v as u32);
        assert(be32(e, 1) == be32(be_bytes(v as int, 4), 0));
        assert(decode_value(e, 0, 0, 0) == Decoded::Done(ValueView::U64(v), 5, 1));
    } else {
        lemma_be64_of_bytes(v);
        assert(be64(e, 1) == be64(be_bytes(v as int, 8), 0));
        assert(decode_value(e, 0, 0, 0) == Decoded::Done(ValueView::U64(v), 9, 1));
    }
}

/// Every negative integer parses back from its encoding.
pub proof fn lemma_negative_round_trip(n: i64)
    requires
        n < 0,
    ensures
        parse_spec(enc_value(ValueView::I64(n))) == Ok::<ValueView, super::error::CodeObjectErrorKind>(ValueView::I64(n)),
{
    let u: u64 = (n + 18446744073709551616) as u64;
    let e = enc_value(ValueView::I64(n));
    lemma_be64_of_bytes(u);
    assert(be64(e, 1) == be64(be_bytes(u as int, 8), 0));
    assert(pow256(8) == 18446744073709551616) by {
        reveal_with_fuel(pow256, 9);
    }
    assert(decode_value(e, 0, 0, 0) == Decoded::Done(ValueView::I64(n), 9, 1));
}

/// The 8-bit signed form `0xd0 b` parses as `b` read in two's complement.
pub proof fn lemma_int8_decode(x: i8)
    ensures
        parse_spec(seq![0xd0u8, x as u8]) == Ok::<ValueView, super::error::CodeObjectErrorKind>(ValueView::I64(x as i64)),
{
    let b = x as u8;
    assert((b >= 128 ==> b - 256 == x) && (b < 128 ==> b == x)) by (bit_vector)
        requires
            b == x as u8,
    ;
    assert(pow256(1) == 256) by {
        reveal_with_fuel(pow256, 2);
    }
    assert(decode_value(seq![0xd0u8, b], 0, 0, 0) == Decoded::Done(ValueView::I64(x as i64), 2, 1));
}

/// A negative fixint byte parses as the byte read in two's complement.
pub proof fn lemma_negative_fixint_decode(x: i8)
    requires
        -32 <= x < 0,
    ensures
        parse_spec(seq![x as u8]) == Ok::<ValueView, super::error::CodeObjectErrorKind>(ValueView::I64(x as i64)),
{
    let b = x as u8;
    assert(b - 256 == x && b >= 0xe0) by (bit_vector)
        requires
            b == x as u8,
            -32 <= x < 0,
    ;
    assert(decode_value(seq![b], 0, 0, 0) == Decoded::Done(ValueView::I64(x as i64), 1, 1));
}

/// The 16-bit signed form parses as its two bytes read in two's complement.
pub proof fn lemma_int16_decode(x: i16)
    ensures
        parse_spec(seq![0xd1u8] + be_bytes((x as u16) as int, 2)) == Ok::<ValueView, super::error::CodeObjectErrorKind>(
            ValueView::I64(x as i64),
        ),
{
    let u = x as u16;
    let e = seq![0xd1u8] + be_bytes(u as int, 2);
    lemma_be16_of_bytes(u);
    assert(be16(e, 1) == be16(be_bytes(u as int, 2), 0));
    assert((u >= 32768 ==> u - 65536 == x) && (u < 32768 ==> u == x)) by (bit_vector)
        requires
            u == x as u16,
    ;
    assert(pow256(2) == 65536) by {
        reveal_with_fuel(pow256, 3);
    }
    assert(decode_value(e, 0, 0, 0) == Decoded::Done(ValueView::I64(x as i64), 3, 1));
}

/// The 32-bit signed form parses as its four bytes read in two's complement.
pub proof fn lemma_int32_decode(x: i32)
    ensures
        parse_spec(seq![0xd2u8] + be_bytes((x as u32) as int, 4)) == Ok::<ValueView, super::error::CodeObjectErrorKind>(
            ValueView::I64(x as i64),
        ),
{
    let u = x as u32;
    let e = seq![0xd2u8] + be_bytes(u as int, 4);
    lemma_be32_of_bytes(u);
    assert(be32(e, 1) == be32(be_bytes(u as int, 4), 0));
    assert((u >= 2147483648 ==> u - 4294967296 == x) && (u < 2147483648 ==> u == x)) by (bit_vector)
        requires
            u == x as u32,
    ;
    assert(pow256(4) == 4294967296) by {
        reveal_with_fuel(pow256, 5);
    }
    assert(decode_value(e, 0, 0, 0) == Decoded::Done(ValueView::I64(x as i64), 5, 1));
}

} // verus!
