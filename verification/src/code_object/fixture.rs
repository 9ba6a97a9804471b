//! Minimal little-endian ELF64 images with an AMDGPU metadata note, built
//! from scratch (synthetic provenance), plus ready-made metadata fixtures.
use super::encode::{enc_value, map_from_btree};
use super::metadata::ARG_TYPE_KEY;
use super::msgpack::{view_entries, view_values, Value, ValueView};
use super::note::{align4, align4_spec, NOTE_OWNER_AMDGPU, NT_AMDGPU_METADATA};
use crate::bytes::{le_bytes, push_le_u16, push_le_u32, push_le_u64, push_slice, push_zeros, zeros};
use crate::isa::kernel::{tiny_add_text, tiny_add_text_spec};
use crate::text::owned;
use vstd::prelude::*;

verus! {

/// `n` rounded up to a multiple of eight.
pub open spec fn align8_spec(n: int) -> int {
    (n + 7) / 8 * 8
}

/// Zero padding that brings a length `n` up to a multiple of four.
pub open spec fn pad4(n: int) -> nat {
    (align4_spec(n) - n) as nat
}

/// Zero padding that brings a length `n` up to a multiple of eight.
pub open spec fn pad8(n: int) -> nat {
    (align8_spec(n) - n) as nat
}

/// One ELF note record: `namesz`, `descsz`, `type`, the NUL-terminated name
/// padded to four bytes, then the descriptor padded to four bytes.
pub open spec fn note_bytes_spec(name: Seq<u8>, ntype: u32, desc: Seq<u8>) -> Seq<u8> {
    let h = le_bytes(name.len() + 1int, 4) + le_bytes(desc.len() as int, 4) + le_bytes(ntype as int, 4)
        + name.push(0u8);
    let h2 = h + zeros(pad4(h.len() as int));
    let d = h2 + desc;
    d + zeros(pad4(d.len() as int))
}

/// The 64-byte ELF64 header of an AMDGPU `ET_DYN` image.
pub open spec fn ehdr_spec(shoff: int, shnum: int, shstrndx: int) -> Seq<u8> {
    seq![0x7fu8, 0x45u8, 0x4cu8, 0x46u8, 2u8, 1u8, 1u8] + zeros(9) + le_bytes(3, 2) + le_bytes(0xe0, 2)
        + le_bytes(1, 4) + zeros(16) + le_bytes(shoff, 8) + zeros(6) + le_bytes(64, 2) + zeros(2)
        + le_bytes(64, 2) + le_bytes(shnum, 2) + le_bytes(shstrndx, 2)
}

/// One 64-byte section header with name offset, type, file offset and size.
pub open spec fn shdr_spec(name_off: int, sh_type: int, off: int, size: int) -> Seq<u8> {
    le_bytes(name_off, 4) + le_bytes(sh_type, 4) + zeros(16) + le_bytes(off, 8) + le_bytes(size, 8)
        + zeros(24)
}

/// Section-name string table.
pub open spec fn shstrtab_spec(has_text: bool) -> Seq<u8> {
    let z = seq![0u8];
    if has_text {
        z + vstd::utf8::encode_utf8(".note"@) + z + vstd::utf8::encode_utf8(".text"@) + z
            + vstd::utf8::encode_utf8(".shstrtab"@) + z
    } else {
        z + vstd::utf8::encode_utf8(".note"@) + z + vstd::utf8::encode_utf8(".shstrtab"@) + z
    }
}

/// The AMDGPU metadata note carrying `desc`.
pub open spec fn metadata_note_spec(desc: Seq<u8>) -> Seq<u8> {
    note_bytes_spec(vstd::utf8::encode_utf8(NOTE_OWNER_AMDGPU@), NT_AMDGPU_METADATA, desc)
}

/// Whole image: header, note at offset 64, optional `.text`, the name table,
/// then the section headers (null, `.note`, [`.text`,] `.shstrtab`), each
/// region starting at a multiple of eight.
pub open spec fn image_spec(desc: Seq<u8>, text: Seq<u8>) -> Seq<u8> {
    let has_text = text.len() > 0;
    let note = metadata_note_spec(desc);
    let shstr = shstrtab_spec(has_text);
    let text_off = align8_spec(64int + note.len());
    let shstr_off = if has_text { align8_spec(text_off + text.len()) } else { text_off };
    let shoff = align8_spec(shstr_off + shstr.len());
    let shnum: int = if has_text { 4 } else { 3 };
    let text_part = if has_text { text + zeros((shstr_off - text_off - text.len()) as nat) } else { Seq::empty() };
    let sections = if has_text {
        shdr_spec(7, 1, text_off, text.len() as int) + shdr_spec(13, 3, shstr_off, shstr.len() as int)
    } else {
        shdr_spec(7, 3, shstr_off, shstr.len() as int)
    };
    ehdr_spec(shoff, shnum, shnum - 1) + note + zeros(pad8(64int + note.len())) + text_part + shstr
        + zeros(pad8(shstr_off + shstr.len())) + zeros(64) + shdr_spec(1, 7, 64, note.len() as int)
        + sections
}

fn align8(n: usize) -> (r: usize)
    requires
        n + 7 <= usize::MAX,
    ensures
        r == align8_spec(n as int),
        n <= r <= n + 7,
{
    assert((n as int + 7) / 8 * 8 <= n + 7 && n <= (n as int + 7) / 8 * 8) by (nonlinear_arith);
    (n + 7) / 8 * 8
}

/// Encode one ELF note record.
fn encode_note(name: &str, ntype: u32, desc: &[u8]) -> (r: Vec<u8>)
    requires
        vstd::utf8::encode_utf8(name@).len() + 1 <= 0xffff,
        desc@.len() <= 0xfff0_0000,
    ensures
        r@ == note_bytes_spec(vstd::utf8::encode_utf8(name@), ntype, desc@),
        r@.len() <= desc@.len() + vstd::utf8::encode_utf8(name@).len() + 19,
{
    let nb = name.as_bytes();
    let mut out: Vec<u8> = Vec::new();
    push_le_u32(&mut out, (nb.len() + 1) as u32);
    push_le_u32(&mut out, desc.len() as u32);
    push_le_u32(&mut out, ntype);
    push_slice(&mut out, nb);
    out.push(0u8);
    let ghost h = out@;
    assert(h =~= le_bytes(nb@.len() + 1int, 4) + le_bytes(desc@.len() as int, 4) + le_bytes(ntype as int, 4)
        + nb@.push(0u8));
    proof { super::note::lemma_align4_nonneg(out@.len() as int); }
    let p1 = align4(out.len()) - out.len();
    push_zeros(&mut out, p1);
    push_slice(&mut out, desc);
    proof { super::note::lemma_align4_nonneg(out@.len() as int); }
    let p2 = align4(out.len()) - out.len();
    push_zeros(&mut out, p2);
    out
}

/// The UTF-8 encoding of a short ASCII name is one byte per character.
proof fn lemma_ascii_literal_len(s: &str)
    requires
        s@.len() <= 16,
        vstd::utf8::is_ascii_chars(s@),
    ensures
        vstd::utf8::encode_utf8(s@).len() == s@.len(),
{
    vstd::utf8::is_ascii_chars_encode_utf8(s@);
}

fn shstrtab(has_text: bool) -> (r: Vec<u8>)
    ensures
        r@ == shstrtab_spec(has_text),
        r@.len() <= 64,
{
    let mut out: Vec<u8> = Vec::new();
    out.push(0u8);
    push_slice(&mut out, ".note".as_bytes());
    out.push(0u8);
    if has_text {
        push_slice(&mut out, ".text".as_bytes());
        out.push(0u8);
    }
    push_slice(&mut out, ".shstrtab".as_bytes());
    out.push(0u8);
    proof {
        reveal_strlit(".note");
        reveal_strlit(".text");
        reveal_strlit(".shstrtab");
        lemma_ascii_literal_len(".note");
        lemma_ascii_literal_len(".text");
        lemma_ascii_literal_len(".shstrtab");
    }
    out
}

fn push_shdr(buf: &mut Vec<u8>, name_off: u32, sh_type: u32, off: u64, size: u64)
    ensures
        final(buf)@ == old(buf)@ + shdr_spec(name_off as int, sh_type as int, off as int, size as int),
{
    let ghost b0 = buf@;
    push_le_u32(buf, name_off);
    push_le_u32(buf, sh_type);
    push_zeros(buf, 16);
    push_le_u64(buf, off);
    push_le_u64(buf, size);
    push_zeros(buf, 24);
    assert(buf@ =~= b0 + shdr_spec(name_off as int, sh_type as int, off as int, size as int));
}

fn push_ehdr(buf: &mut Vec<u8>, shoff: u64, shnum: u16, shstrndx: u16)
    ensures
        final(buf)@ == old(buf)@ + ehdr_spec(shoff as int, shnum as int, shstrndx as int),
{
    let ghost b0 = buf@;
    buf.push(0x7fu8);
    buf.push(0x45u8);
    buf.push(0x4cu8);
    buf.push(0x46u8);
    buf.push(2u8);
    buf.push(1u8);
    buf.push(1u8);
    assert(buf@ =~= b0 + seq![0x7fu8, 0x45u8, 0x4cu8, 0x46u8, 2u8, 1u8, 1u8]);
    push_zeros(buf, 9);
    push_le_u16(buf, 3);
    push_le_u16(buf, 0xe0);
    push_le_u32(buf, 1);
    push_zeros(buf, 16);
    push_le_u64(buf, shoff);
    push_zeros(buf, 6);
    push_le_u16(buf, 64);
    push_zeros(buf, 2);
    push_le_u16(buf, 64);
    push_le_u16(buf, shnum);
    push_le_u16(buf, shstrndx);
    assert(buf@ =~= b0 + ehdr_spec(shoff as int, shnum as int, shstrndx as int));
}

/// Build a minimal ELF64 `ET_DYN` image with one `SHT_NOTE` metadata payload.
pub fn build_code_object_with_metadata(msgpack_desc: &[u8]) -> (r: Vec<u8>)
    requires
        msgpack_desc@.len() <= 0xfff0_0000,
    ensures
        r@ == image_spec(msgpack_desc@, Seq::empty()),
{
    build_code_object_with_metadata_and_text(msgpack_desc, None)
}

/// Build an ELF64 image with the metadata note and, when `text` holds bytes,
/// a `.text` section with them.
pub fn build_code_object_with_metadata_and_text(msgpack_desc: &[u8], text: Option<&[u8]>) -> (r: Vec<u8>)
    requires
        msgpack_desc@.len() + (match text {
            Some(t) => t@.len() as int,
            None => 0,
        }) <= 0xfff0_0000,
    ensures
        r@ == image_spec(
            msgpack_desc@,
            match text {
                Some(t) => t@,
                None => Seq::empty(),
            },
        ),
{
    proof {
        reveal_strlit("AMDGPU");
        lemma_ascii_literal_len(NOTE_OWNER_AMDGPU);
    }
    let note = encode_note(NOTE_OWNER_AMDGPU, NT_AMDGPU_METADATA, msgpack_desc);
    let t: &[u8] = match text {
        Some(t) => t,
        None => &[],
    };
    let ghost tv = t@;
    assert(tv == match text {
        Some(t) => t@,
        None => Seq::<u8>::empty(),
    });
    let has_text = t.len() > 0;
    let shstr = shstrtab(has_text);
    let text_off = align8(64 + note.len());
    let shstr_off = if has_text { align8(text_off + t.len()) } else { text_off };
    let shoff = align8(shstr_off + shstr.len());
    let shnum: u16 = if has_text { 4 } else { 3 };
    let mut buf: Vec<u8> = Vec::new();
    push_ehdr(&mut buf, shoff as u64, shnum, shnum - 1);
    let ghost b1 = buf@;
    push_slice(&mut buf, note.as_slice());
    push_zeros(&mut buf, text_off - (64 + note.len()));
    let ghost b2 = buf@;
    if has_text {
        push_slice(&mut buf, t);
        push_zeros(&mut buf, shstr_off - text_off - t.len());
    }
    let ghost b3 = buf@;
    push_slice(&mut buf, shstr.as_slice());
    push_zeros(&mut buf, shoff - (shstr_off + shstr.len()));
    push_zeros(&mut buf, 64);
    push_shdr(&mut buf, 1, 7, 64, note.len() as u64);
    let ghost b4 = buf@;
    if has_text {
        push_shdr(&mut buf, 7, 1, text_off as u64, t.len() as u64);
        push_shdr(&mut buf, 13, 3, shstr_off as u64, shstr.len() as u64);
    } else {
        push_shdr(&mut buf, 7, 3, shstr_off as u64, shstr.len() as u64);
    }
    assert(buf@ =~= image_spec(msgpack_desc@, tv));
    buf
}

/// Model of one kernel-argument record, keys in sorted order.
pub open spec fn arg_view(
    name: Option<Seq<char>>,
    ty_name: Option<Seq<char>>,
    offset: u32,
    size: u32,
    value_kind: Seq<char>,
    address_space: Option<Seq<char>>,
) -> ValueView {
    let e0 = Seq::<(Seq<char>, ValueView)>::empty();
    let e1 = match address_space {
        Some(s) => e0.push((".address_space"@, ValueView::Str(s))),
        None => e0,
    };
    let e2 = match name {
        Some(s) => e1.push((".name"@, ValueView::Str(s))),
        None => e1,
    };
    let e3 = e2.push((".offset"@, ValueView::U64(offset as u64))).push((".size"@, ValueView::U64(size as u64)));
    let e4 = match ty_name {
        Some(s) => e3.push((ARG_TYPE_KEY@, ValueView::Str(s))),
        None => e3,
    };
    ValueView::Dict(e4.push((".value_kind"@, ValueView::Str(value_kind))))
}

/// Model of one kernel record, keys in sorted order.
pub open spec fn kernel_view(
    name: Seq<char>,
    symbol: Seq<char>,
    kernarg_size: u32,
    kernarg_align: u32,
    group: u32,
    private: u32,
    args: Seq<ValueView>,
) -> ValueView {
    ValueView::Dict(
        seq![
            (".args"@, ValueView::Array(args)),
            (".group_segment_fixed_size"@, ValueView::U64(group as u64)),
            (".kernarg_segment_align"@, ValueView::U64(kernarg_align as u64)),
            (".kernarg_segment_size"@, ValueView::U64(kernarg_size as u64)),
            (".name"@, ValueView::Str(name)),
            (".private_segment_fixed_size"@, ValueView::U64(private as u64)),
            (".symbol"@, ValueView::Str(symbol)),
        ],
    )
}

/// Model of a metadata root map, keys in sorted order.
pub open spec fn metadata_view(version: (u32, u32), target: Seq<char>, kernels: Seq<ValueView>) -> ValueView {
    ValueView::Dict(
        seq![
            ("amdhsa.kernels"@, ValueView::Array(kernels)),
            ("amdhsa.target"@, ValueView::Str(target)),
            ("amdhsa.version"@, ValueView::Array(seq![ValueView::U64(version.0 as u64), ValueView::U64(version.1 as u64)])),
        ],
    )
}

fn push_entry(m: &mut Vec<(String, Value)>, k: &str, v: Value)
    ensures
        view_entries(final(m)@) == view_entries(old(m)@).push((k@, v.view())),
{
    let ghost m0 = m@;
    m.push((owned(k), v));
    assert(m@.drop_last() =~= m0);
}

fn push_value(a: &mut Vec<Value>, v: Value)
    ensures
        view_values(final(a)@) == view_values(old(a)@).push(v.view()),
{
    let ghost a0 = a@;
    a.push(v);
    assert(a@.drop_last() =~= a0);
}

fn arg(
    name: Option<&str>,
    ty_name: Option<&str>,
    offset: u32,
    size: u32,
    value_kind: &str,
    address_space: Option<&str>,
) -> (r: Value)
    ensures
        r.view() == arg_view(
            match name { Some(s) => Some(s@), None => None },
            match ty_name { Some(s) => Some(s@), None => None },
            offset,
            size,
            value_kind@,
            match address_space { Some(s) => Some(s@), None => None },
        ),
{
    let mut m: Vec<(String, Value)> = Vec::new();
    assert(view_entries(m@) =~= Seq::empty());
    if let Some(a) = address_space {
        push_entry(&mut m, ".address_space", Value::String(owned(a)));
    }
    if let Some(n) = name {
        push_entry(&mut m, ".name", Value::String(owned(n)));
    }
    push_entry(&mut m, ".offset", Value::U64(offset as u64));
    push_entry(&mut m, ".size", Value::U64(size as u64));
    if let Some(t) = ty_name {
        push_entry(&mut m, ARG_TYPE_KEY, Value::String(owned(t)));
    }
    push_entry(&mut m, ".value_kind", Value::String(owned(value_kind)));
    Value::Dict(m)
}

fn kernel(
    name: &str,
    symbol: &str,
    kernarg_size: u32,
    kernarg_align: u32,
    group: u32,
    private: u32,
    args: Vec<Value>,
) -> (r: Value)
    ensures
        r.view() == kernel_view(name@, symbol@, kernarg_size, kernarg_align, group, private, view_values(args@)),
{
    let ghost av = view_values(args@);
    let mut m: Vec<(String, Value)> = Vec::new();
    assert(view_entries(m@) =~= Seq::empty());
    push_entry(&mut m, ".args", Value::Array(args));
    push_entry(&mut m, ".group_segment_fixed_size", Value::U64(group as u64));
    push_entry(&mut m, ".kernarg_segment_align", Value::U64(kernarg_align as u64));
    push_entry(&mut m, ".kernarg_segment_size", Value::U64(kernarg_size as u64));
    push_entry(&mut m, ".name", Value::String(owned(name)));
    push_entry(&mut m, ".private_segment_fixed_size", Value::U64(private as u64));
    push_entry(&mut m, ".symbol", Value::String(owned(symbol)));
    assert(view_entries(m@) =~= seq![
        (".args"@, ValueView::Array(av)),
        (".group_segment_fixed_size"@, ValueView::U64(group as u64)),
        (".kernarg_segment_align"@, ValueView::U64(kernarg_align as u64)),
        (".kernarg_segment_size"@, ValueView::U64(kernarg_size as u64)),
        (".name"@, ValueView::Str(name@)),
        (".private_segment_fixed_size"@, ValueView::U64(private as u64)),
        (".symbol"@, ValueView::Str(symbol@)),
    ]);
    Value::Dict(m)
}

/// Encode an AMDHSA metadata root map with the given version, target and kernels.
fn amdhsa_metadata(version: (u32, u32), target: &str, kernels: Vec<Value>) -> (r: Vec<u8>)
    ensures
        r@ == enc_value(metadata_view(version, target@, view_values(kernels@))),
{
    let ghost kv = view_values(kernels@);
    let mut ver: Vec<Value> = Vec::new();
    assert(view_values(ver@) =~= Seq::empty());
    push_value(&mut ver, Value::U64(version.0 as u64));
    push_value(&mut ver, Value::U64(version.1 as u64));
    assert(view_values(ver@) =~= seq![ValueView::U64(version.0 as u64), ValueView::U64(version.1 as u64)]);
    let mut root: Vec<(String, Value)> = Vec::new();
    assert(view_entries(root@) =~= Seq::empty());
    push_entry(&mut root, "amdhsa.kernels", Value::Array(kernels));
    push_entry(&mut root, "amdhsa.target", Value::String(owned(target)));
    push_entry(&mut root, "amdhsa.version", Value::Array(ver));
    assert(view_entries(root@) =~= seq![
        ("amdhsa.kernels"@, ValueView::Array(kv)),
        ("amdhsa.target"@, ValueView::Str(target@)),
        ("amdhsa.version"@, ValueView::Array(seq![ValueView::U64(version.0 as u64), ValueView::U64(version.1 as u64)])),
    ]);
    map_from_btree(&root)
}

/// The image for an encoded metadata map, when that map is of a size an ELF
/// note can carry; every fixture's map is a few hundred bytes.
fn image_for(meta: Vec<u8>, text: Option<&[u8]>) -> (r: Vec<u8>)
    requires
        match text {
            Some(t) => t@.len() <= 4096,
            None => true,
        },
    ensures
        meta@.len() <= 0xffe0_0000 ==> r@ == image_spec(
            meta@,
            match text {
                Some(t) => t@,
                None => Seq::empty(),
            },
        ),
{
    if meta.len() <= 0xffe0_0000 {
        build_code_object_with_metadata_and_text(meta.as_slice(), text)
    } else {
        Vec::new()
    }
}

/// Global-buffer pointer argument with the given name, type and offset.
fn pointer_arg(name: &str, ty: &str, offset: u32) -> (r: Value)
    ensures
        r.view() == arg_view(Some(name@), Some(ty@), offset, 8, "global_buffer"@, Some("global"@)),
{
    arg(Some(name), Some(ty), offset, 8, "global_buffer", Some("global"))
}

pub open spec fn pointer_arg_view(name: Seq<char>, ty: Seq<char>, offset: u32) -> ValueView {
    arg_view(Some(name), Some(ty), offset, 8, "global_buffer"@, Some("global"@))
}

/// Metadata of the single-kernel `tiny_add` fixture: `a` and `b` float pointers.
pub open spec fn tiny_add_metadata_view() -> ValueView {
    metadata_view(
        (1, 2),
        "amdgcn-amd-amdhsa--gfx1201"@,
        seq![kernel_view("tiny_add"@, "tiny_add.kd"@, 16, 8, 0, 0, seq![
            pointer_arg_view("a"@, "float*"@, 0),
            pointer_arg_view("b"@, "float*"@, 8),
        ])],
    )
}

fn tiny_add_metadata() -> (r: Vec<u8>)
    ensures
        r@ == enc_value(tiny_add_metadata_view()),
{
    let mut args: Vec<Value> = Vec::new();
    assert(view_values(args@) =~= Seq::empty());
    push_value(&mut args, pointer_arg("a", "float*", 0));
    push_value(&mut args, pointer_arg("b", "float*", 8));
    let ghost av = seq![pointer_arg_view("a"@, "float*"@, 0), pointer_arg_view("b"@, "float*"@, 8)];
    assert(view_values(args@) =~= av);
    let k = kernel("tiny_add", "tiny_add.kd", 16, 8, 0, 0, args);
    let mut ks: Vec<Value> = Vec::new();
    assert(view_values(ks@) =~= Seq::empty());
    push_value(&mut ks, k);
    assert(view_values(ks@) =~= seq![kernel_view("tiny_add"@, "tiny_add.kd"@, 16, 8, 0, 0, av)]);
    let r = amdhsa_metadata((1, 2), "amdgcn-amd-amdhsa--gfx1201", ks);
    assert(metadata_view((1, 2), "amdgcn-amd-amdhsa--gfx1201"@, view_values(ks@)) =~~= tiny_add_metadata_view());
    r
}

/// Tiny single-kernel gfx1201 fixture (metadata only).
pub fn fixture_tiny_add_gfx1201() -> (r: Vec<u8>)
    ensures
        enc_value(tiny_add_metadata_view()).len() <= 0xffe0_0000 ==> r@ == image_spec(
            enc_value(tiny_add_metadata_view()),
            Seq::empty(),
        ),
{
    image_for(tiny_add_metadata(), None)
}

/// Executable fixture: the `tiny_add` metadata plus its `.text`.
pub fn fixture_tiny_add_with_text() -> (r: Vec<u8>)
    ensures
        enc_value(tiny_add_metadata_view()).len() <= 0xffe0_0000 ==> r@ == image_spec(
            enc_value(tiny_add_metadata_view()),
            tiny_add_text_spec(),
        ),
{
    let text = tiny_add_text();
    image_for(tiny_add_metadata(), Some(text.as_slice()))
}

/// Metadata of the two-kernel fixture: `copy(src, dst)` and `reduce(buf)`
/// with group and private segments.
pub open spec fn multi_kernel_metadata_view() -> ValueView {
    metadata_view(
        (1, 1),
        "amdgcn-amd-amdhsa--gfx1201"@,
        seq![
            kernel_view("copy"@, "copy.kd"@, 16, 8, 0, 0, seq![
                pointer_arg_view("src"@, "int*"@, 0),
                pointer_arg_view("dst"@, "int*"@, 8),
            ]),
            kernel_view("reduce"@, "reduce.kd"@, 8, 8, 256, 64, seq![pointer_arg_view("buf"@, "int*"@, 0)]),
        ],
    )
}

/// Multiple kernels with group/private segment sizes.
pub fn fixture_multi_kernel_gfx1201() -> (r: Vec<u8>)
    ensures
        enc_value(multi_kernel_metadata_view()).len() <= 0xffe0_0000 ==> r@ == image_spec(
            enc_value(multi_kernel_metadata_view()),
            Seq::empty(),
        ),
{
    let mut a1: Vec<Value> = Vec::new();
    assert(view_values(a1@) =~= Seq::empty());
    push_value(&mut a1, pointer_arg("src", "int*", 0));
    push_value(&mut a1, pointer_arg("dst", "int*", 8));
    let ghost av1 = seq![pointer_arg_view("src"@, "int*"@, 0), pointer_arg_view("dst"@, "int*"@, 8)];
    assert(view_values(a1@) =~= av1);
    let k1 = kernel("copy", "copy.kd", 16, 8, 0, 0, a1);
    let mut a2: Vec<Value> = Vec::new();
    assert(view_values(a2@) =~= Seq::empty());
    push_value(&mut a2, pointer_arg("buf", "int*", 0));
    let ghost av2 = seq![pointer_arg_view("buf"@, "int*"@, 0)];
    assert(view_values(a2@) =~= av2);
    let k2 = kernel("reduce", "reduce.kd", 8, 8, 256, 64, a2);
    let mut ks: Vec<Value> = Vec::new();
    assert(view_values(ks@) =~= Seq::empty());
    push_value(&mut ks, k1);
    push_value(&mut ks, k2);
    assert(view_values(ks@) =~= seq![
        kernel_view("copy"@, "copy.kd"@, 16, 8, 0, 0, av1),
        kernel_view("reduce"@, "reduce.kd"@, 8, 8, 256, 64, av2),
    ]);
    let meta = amdhsa_metadata((1, 1), "amdgcn-amd-amdhsa--gfx1201", ks);
    assert(metadata_view((1, 1), "amdgcn-amd-amdhsa--gfx1201"@, view_values(ks@)) =~~= multi_kernel_metadata_view());
    image_for(meta, None)
}

/// Metadata with the given version and target and one argument-less kernel `k`.
pub open spec fn single_k_metadata_view(version: (u32, u32), target: Seq<char>) -> ValueView {
    metadata_view(version, target, seq![kernel_view("k"@, "k.kd"@, 0, 1, 0, 0, Seq::empty())])
}

fn single_k_fixture(version: (u32, u32), target: &str) -> (r: Vec<u8>)
    ensures
        enc_value(single_k_metadata_view(version, target@)).len() <= 0xffe0_0000 ==> r@ == image_spec(
            enc_value(single_k_metadata_view(version, target@)),
            Seq::empty(),
        ),
{
    let args: Vec<Value> = Vec::new();
    assert(view_values(args@) =~= Seq::empty());
    let k = kernel("k", "k.kd", 0, 1, 0, 0, args);
    let mut ks: Vec<Value> = Vec::new();
    assert(view_values(ks@) =~= Seq::empty());
    push_value(&mut ks, k);
    assert(view_values(ks@) =~= seq![kernel_view("k"@, "k.kd"@, 0, 1, 0, 0, Seq::empty())]);
    let meta = amdhsa_metadata(version, target, ks);
    assert(metadata_view(version, target@, view_values(ks@)) =~~= single_k_metadata_view(version, target@));
    image_for(meta, None)
}

/// Unsupported target (`gfx900`); inspection fails closed on it.
pub fn fixture_unsupported_target() -> (r: Vec<u8>)
    ensures
        enc_value(single_k_metadata_view((1, 0), "amdgcn-amd-amdhsa--gfx900"@)).len() <= 0xffe0_0000 ==> r@
            == image_spec(enc_value(single_k_metadata_view((1, 0), "amdgcn-amd-amdhsa--gfx900"@)), Seq::empty()),
{
    single_k_fixture((1, 0), "amdgcn-amd-amdhsa--gfx900")
}

/// Unsupported metadata version (2.0); inspection fails closed on it.
pub fn fixture_unsupported_version() -> (r: Vec<u8>)
    ensures
        enc_value(single_k_metadata_view((2, 0), "amdgcn-amd-amdhsa--gfx1201"@)).len() <= 0xffe0_0000 ==> r@
            == image_spec(enc_value(single_k_metadata_view((2, 0), "amdgcn-amd-amdhsa--gfx1201"@)), Seq::empty()),
{
    single_k_fixture((2, 0), "amdgcn-amd-amdhsa--gfx1201")
}

} // verus!
