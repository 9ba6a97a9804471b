//! Built-in functional IR kernels.
use super::ir::{
    op_has_barrier, op_valid, ops_have_barrier, ops_valid, program_valid, AddrSpace, AtomicOrder, AtomicScope,
    KernargField, Op, Program, TypeId, FUNCTIONAL_FIDELITY, NOT_ISA_NOTE, SFIR_SCHEMA,
};
use crate::bytes::{le_bytes, push_le_u64};
use crate::text::owned;
use vstd::prelude::*;

verus! {

/// A register name.
fn r(name: &str) -> (s: String)
    ensures
        s@ == name@,
{
    owned(name)
}

/// Appends a valid op to a valid body.
fn push_op(body: &mut Vec<Op>, op: Op)
    requires
        ops_valid(old(body)@, true),
        op_valid(op, true),
    ensures
        final(body)@ == old(body)@.push(op),
        ops_valid(final(body)@, true),
        ops_have_barrier(final(body)@) == (ops_have_barrier(old(body)@) || op_has_barrier(op)),
{
    let ghost before = body@;
    body.push(op);
    assert(body@.drop_last() =~= before);
}

/// Appends `Const dst: ty = value`.
fn push_const(body: &mut Vec<Op>, dst: &str, ty: TypeId, value: i64)
    requires
        ops_valid(old(body)@, true),
    ensures
        final(body)@.len() == old(body)@.len() + 1,
        final(body)@.drop_last() == old(body)@,
        final(body)@.last() matches Op::Const { dst: d, ty: t, value: v } && d@ == dst@ && t == ty && v == value,
        ops_valid(final(body)@, true),
        ops_have_barrier(final(body)@) == ops_have_barrier(old(body)@),
{
    push_op(body, Op::Const { dst: r(dst), ty, value });
    assert(body@.drop_last() =~= old(body)@);
}

/// Appends the `lhs * 4` byte offset of a 32-bit element into `dst`.
fn push_offset(body: &mut Vec<Op>, dst: &str, index: &str)
    requires
        ops_valid(old(body)@, true),
    ensures
        final(body)@.len() == old(body)@.len() + 2,
        final(body)@.subrange(0, old(body)@.len() as int) == old(body)@,
        final(body)@[old(body)@.len() as int] matches Op::Const { dst: d, ty: t, value: v } && d@ == "four"@ && t
            == TypeId::U64 && v == 4,
        final(body)@[old(body)@.len() as int + 1] matches Op::Mul { dst: d, lhs: l, rhs: rr, ty: t } && d@ == dst@ && l@
            == index@ && rr@ == "four"@ && t == TypeId::U64,
        ops_valid(final(body)@, true),
        ops_have_barrier(final(body)@) == ops_have_barrier(old(body)@),
{
    push_const(body, "four", TypeId::U64, 4);
    push_op(body, Op::Mul { dst: r(dst), lhs: r(index), rhs: r("four"), ty: TypeId::U64 });
}

/// Appends `dst = kernarg pointer at offset + off`.
fn push_element_addr(body: &mut Vec<Op>, dst: &str, ptr: &str, kernarg_offset: u32, off: &str)
    requires
        ops_valid(old(body)@, true),
    ensures
        final(body)@.len() == old(body)@.len() + 2,
        final(body)@.subrange(0, old(body)@.len() as int) == old(body)@,
        final(body)@[old(body)@.len() as int] matches Op::KernargLoad { dst: d, offset: o, ty: t } && d@ == ptr@ && o
            == kernarg_offset && t == TypeId::U64,
        final(body)@[old(body)@.len() as int + 1] matches Op::Add { dst: d, lhs: l, rhs: rr, ty: t } && d@ == dst@ && l@
            == ptr@ && rr@ == off@ && t == TypeId::U64,
        ops_valid(final(body)@, true),
        ops_have_barrier(final(body)@) == ops_have_barrier(old(body)@),
{
    push_op(body, Op::KernargLoad { dst: r(ptr), offset: kernarg_offset, ty: TypeId::U64 });
    push_op(body, Op::Add { dst: r(dst), lhs: r(ptr), rhs: r(off), ty: TypeId::U64 });
}

/// Appends the closing `ret`.
fn push_ret(body: &mut Vec<Op>)
    requires
        ops_valid(old(body)@, true),
    ensures
        final(body)@ == old(body)@.push(Op::Ret),
        ops_valid(final(body)@, true),
        ops_have_barrier(final(body)@) == ops_have_barrier(old(body)@),
{
    push_op(body, Op::Ret);
}

/// A kernel-argument slot holding a global pointer.
fn ptr_field(name: &str, offset: u32) -> (f: KernargField)
    ensures
        f.name@ == name@,
        f.offset == offset,
        f.size == 8,
        f.kind@ == "global_ptr"@,
{
    KernargField { name: r(name), offset, size: 8, kind: r("global_ptr") }
}

/// A program with the honesty fields set.
fn base(name: &str, provenance: &str, body: Vec<Op>, layout: Vec<KernargField>, group_bytes: u32) -> (p: Program)
    requires
        body@.len() > 0,
        body@.last() is Ret,
        ops_valid(body@, true),
    ensures
        program_valid(p),
        p.name@ == name@,
        p.source_provenance@ == provenance@,
        p.body@ == body@,
        p.kernarg_layout@ == layout@,
        p.group_bytes == group_bytes,
{
    Program {
        schema: owned(SFIR_SCHEMA),
        fidelity: owned(FUNCTIONAL_FIDELITY),
        note: owned(NOT_ISA_NOTE),
        name: r(name),
        source_provenance: r(provenance),
        kernarg_layout: layout,
        group_bytes,
        body,
    }
}

/// Kernel-argument layout of two global pointers `a` at 0 and `b` at 8.
fn two_ptr_layout() -> (v: Vec<KernargField>)
    ensures
        v@.len() == 2,
{
    let mut v: Vec<KernargField> = Vec::new();
    v.push(ptr_field("a", 0));
    v.push(ptr_field("b", 8));
    v
}

/// Kernel-argument layout of one global pointer `out` at 0.
fn one_ptr_layout() -> (v: Vec<KernargField>)
    ensures
        v@.len() == 1,
{
    let mut v: Vec<KernargField> = Vec::new();
    v.push(ptr_field("out", 0));
    v
}

/// The body of `tiny_add`, op by op: `i = global_id.x`, `off = i * 4`,
/// `addr_a = kernarg[0] + off`, `va = *addr_a`, `out = va + 1` (i32),
/// `addr_b = kernarg[8] + off`, `*addr_b = out`, `ret`.
pub open spec fn tiny_add_ops(b: Seq<Op>) -> bool {
    &&& b.len() == 12
    &&& b[0] matches Op::GlobalId { dst: d, dim: k } && d@ == "i"@ && k == 0
    &&& b[1] matches Op::Const { dst: d, ty: t, value: v } && d@ == "four"@ && t == TypeId::U64 && v == 4
    &&& b[2] matches Op::Mul { dst: d, lhs: l, rhs: rr, ty: t } && d@ == "off"@ && l@ == "i"@ && rr@ == "four"@ && t
        == TypeId::U64
    &&& b[3] matches Op::KernargLoad { dst: d, offset: o, ty: t } && d@ == "pa"@ && o == 0 && t == TypeId::U64
    &&& b[4] matches Op::Add { dst: d, lhs: l, rhs: rr, ty: t } && d@ == "addr_a"@ && l@ == "pa"@ && rr@ == "off"@ && t
        == TypeId::U64
    &&& b[5] matches Op::LoadGlobal { dst: d, addr: a, ty: t } && d@ == "va"@ && a@ == "addr_a"@ && t == TypeId::I32
    &&& b[6] matches Op::Const { dst: d, ty: t, value: v } && d@ == "one"@ && t == TypeId::I32 && v == 1
    &&& b[7] matches Op::Add { dst: d, lhs: l, rhs: rr, ty: t } && d@ == "out"@ && l@ == "va"@ && rr@ == "one"@ && t
        == TypeId::I32
    &&& b[8] matches Op::KernargLoad { dst: d, offset: o, ty: t } && d@ == "pb"@ && o == 8 && t == TypeId::U64
    &&& b[9] matches Op::Add { dst: d, lhs: l, rhs: rr, ty: t } && d@ == "addr_b"@ && l@ == "pb"@ && rr@ == "off"@ && t
        == TypeId::U64
    &&& b[10] matches Op::StoreGlobal { addr: a, src: v, ty: t } && a@ == "addr_b"@ && v@ == "out"@ && t == TypeId::I32
    &&& b[11] is Ret
}

/// `b[i] = a[i] + 1` for `i = global_id.x`; pointers `a` and `b` are the
/// kernel arguments at 0 and 8.
pub fn tiny_add() -> (p: Program)
    ensures
        program_valid(p),
        p.name@ == "tiny_add"@,
        tiny_add_ops(p.body@),
        !ops_have_barrier(p.body@),
        p.kernarg_layout@.len() == 2,
        p.group_bytes == 0,
{
    let mut b: Vec<Op> = Vec::new();
    push_op(&mut b, Op::GlobalId { dst: r("i"), dim: 0 });
    let ghost s0 = b@;
    push_offset(&mut b, "off", "i");
    let ghost s1 = b@;
    push_element_addr(&mut b, "addr_a", "pa", 0, "off");
    let ghost s2 = b@;
    push_op(&mut b, Op::LoadGlobal { dst: r("va"), addr: r("addr_a"), ty: TypeId::I32 });
    let ghost s3 = b@;
    push_const(&mut b, "one", TypeId::I32, 1);
    let ghost s4 = b@;
    push_op(&mut b, Op::Add { dst: r("out"), lhs: r("va"), rhs: r("one"), ty: TypeId::I32 });
    let ghost s5 = b@;
    push_element_addr(&mut b, "addr_b", "pb", 8, "off");
    let ghost s6 = b@;
    push_op(&mut b, Op::StoreGlobal { addr: r("addr_b"), src: r("out"), ty: TypeId::I32 });
    let ghost s7 = b@;
    push_ret(&mut b);
    proof {
        assert(s7 == b@.subrange(0, 11));
        assert(s6 == s7.subrange(0, 10));
        assert(s5 == s6.subrange(0, 8));
        assert(s4 == s5.subrange(0, 7));
        assert(s3 == s4.subrange(0, 6));
        assert(s2 == s3.subrange(0, 5));
        assert(s1 == s2.subrange(0, 3));
        assert(s0 == s1.subrange(0, 1));
        assert(b@[0] == s0[0]);
        assert(b@[1] == s1[1] && b@[2] == s1[2]);
        assert(b@[3] == s2[3] && b@[4] == s2[4]);
        assert(b@[5] == s3[5]);
        assert(b@[6] == s4[6]);
        assert(b@[7] == s5[7]);
        assert(b@[8] == s6[8] && b@[9] == s6[9]);
        assert(b@[10] == s7[10]);
    }
    base(
        "tiny_add",
        "fixtures/functional/tiny_add.ref.c (hand-translated to softgpu-sfir-v1)",
        b,
        two_ptr_layout(),
        0,
    )
}

/// `b[i] = a[i]`.
pub fn tiny_copy() -> (p: Program)
    ensures
        program_valid(p),
        p.name@ == "tiny_copy"@,
        !ops_have_barrier(p.body@),
        p.body@.len() == 10,
        p.kernarg_layout@.len() == 2,
        p.group_bytes == 0,
{
    let mut b: Vec<Op> = Vec::new();
    push_op(&mut b, Op::GlobalId { dst: r("i"), dim: 0 });
    push_offset(&mut b, "off", "i");
    push_element_addr(&mut b, "addr_a", "pa", 0, "off");
    push_op(&mut b, Op::LoadGlobal { dst: r("va"), addr: r("addr_a"), ty: TypeId::I32 });
    push_element_addr(&mut b, "addr_b", "pb", 8, "off");
    push_op(&mut b, Op::StoreGlobal { addr: r("addr_b"), src: r("va"), ty: TypeId::I32 });
    push_ret(&mut b);
    base("tiny_copy", "SoftGPU-authored softgpu-sfir-v1 (scalar copy)", b, two_ptr_layout(), 0)
}

/// `out[i] = i` for `i = global_id.x`.
pub fn tiny_index() -> (p: Program)
    ensures
        program_valid(p),
        p.name@ == "tiny_index"@,
        !ops_have_barrier(p.body@),
        p.body@.len() == 7,
        p.kernarg_layout@.len() == 1,
        p.group_bytes == 0,
{
    let mut b: Vec<Op> = Vec::new();
    push_op(&mut b, Op::GlobalId { dst: r("i"), dim: 0 });
    push_offset(&mut b, "off", "i");
    push_element_addr(&mut b, "addr", "p", 0, "off");
    push_op(&mut b, Op::StoreGlobal { addr: r("addr"), src: r("i"), ty: TypeId::I32 });
    push_ret(&mut b);
    base("tiny_index", "SoftGPU-authored softgpu-sfir-v1 (index write)", b, one_ptr_layout(), 0)
}

/// `out[i] = wave_id * 1000 + lane_id`.
pub fn wave_lane_ids() -> (p: Program)
    ensures
        program_valid(p),
        p.name@ == "wave_lane_ids"@,
        !ops_have_barrier(p.body@),
        p.group_bytes == 0,
{
    let mut b: Vec<Op> = Vec::new();
    push_op(&mut b, Op::GlobalId { dst: r("i"), dim: 0 });
    push_op(&mut b, Op::WaveId { dst: r("w") });
    push_op(&mut b, Op::LaneId { dst: r("l") });
    push_const(&mut b, "k1000", TypeId::I32, 1000);
    push_op(&mut b, Op::Mul { dst: r("t"), lhs: r("w"), rhs: r("k1000"), ty: TypeId::I32 });
    push_op(&mut b, Op::Add { dst: r("v"), lhs: r("t"), rhs: r("l"), ty: TypeId::I32 });
    push_offset(&mut b, "off", "i");
    push_element_addr(&mut b, "addr", "p", 0, "off");
    push_op(&mut b, Op::StoreGlobal { addr: r("addr"), src: r("v"), ty: TypeId::I32 });
    push_ret(&mut b);
    base("wave_lane_ids", "SoftGPU-authored softgpu-sfir-v1 (wave/lane ids)", b, one_ptr_layout(), 0)
}

/// `out[i] += 1` on the lanes with an even global id only.
pub fn predicated_inc() -> (p: Program)
    ensures
        program_valid(p),
        p.name@ == "predicated_inc"@,
        !ops_have_barrier(p.body@),
        p.group_bytes == 0,
{
    let mut then_body: Vec<Op> = Vec::new();
    push_op(&mut then_body, Op::LoadGlobal { dst: r("v"), addr: r("addr"), ty: TypeId::I32 });
    push_const(&mut then_body, "inc", TypeId::I32, 1);
    push_op(&mut then_body, Op::Add { dst: r("v2"), lhs: r("v"), rhs: r("inc"), ty: TypeId::I32 });
    push_op(&mut then_body, Op::StoreGlobal { addr: r("addr"), src: r("v2"), ty: TypeId::I32 });
    let else_body: Vec<Op> = Vec::new();
    proof {
        super::ir::lemma_ops_valid_each(then_body@, true);
        super::ir::lemma_ops_valid_each(then_body@, false);
        super::ir::lemma_ops_have_barrier_some(then_body@);
        assert forall|k: int| 0 <= k < then_body@.len() implies #[trigger] op_valid(then_body@[k], false) by {
            assert(op_valid(then_body@[k], true));
            assert(!(then_body@[k] is Barrier)) by {
                if then_body@[k] is Barrier {
                    assert(op_has_barrier(then_body@[k]));
                }
            }
        }
    }
    let mut b: Vec<Op> = Vec::new();
    push_op(&mut b, Op::GlobalId { dst: r("i"), dim: 0 });
    push_const(&mut b, "one", TypeId::U32, 1);
    push_op(&mut b, Op::And { dst: r("bit"), lhs: r("i"), rhs: r("one"), ty: TypeId::U32 });
    push_const(&mut b, "zero", TypeId::U32, 0);
    push_op(&mut b, Op::CmpEq { dst: r("even"), lhs: r("bit"), rhs: r("zero"), ty: TypeId::U32 });
    push_offset(&mut b, "off", "i");
    push_element_addr(&mut b, "addr", "p", 0, "off");
    push_op(&mut b, Op::If { cond: r("even"), then_body, else_body });
    push_ret(&mut b);
    base("predicated_inc", "SoftGPU-authored softgpu-sfir-v1 (predicated increment)", b, one_ptr_layout(), 0)
}

/// Body of the group exchange: each lane writes its local id to group slot
/// `lid`, then (after a barrier when `with_barrier`) reads slot
/// `(lid + 1) % wg` and writes it to `out[global_id]`.
fn group_exchange_body(wg: u32, with_barrier: bool) -> (b: Vec<Op>)
    ensures
        b@.len() > 0,
        b@.last() is Ret,
        ops_valid(b@, true),
        ops_have_barrier(b@) == with_barrier,
{
    let mut wrap: Vec<Op> = Vec::new();
    push_const(&mut wrap, "nx", TypeId::U32, 0);
    proof {
        super::ir::lemma_ops_valid_each(wrap@, false);
        assert(op_valid(wrap@[0], false));
        assert(!op_has_barrier(wrap@[0]));
        super::ir::lemma_ops_have_barrier_some(wrap@);
    }
    let mut b: Vec<Op> = Vec::new();
    push_op(&mut b, Op::LocalId { dst: r("l"), dim: 0 });
    push_offset(&mut b, "goff", "l");
    push_op(&mut b, Op::StoreGroup { addr: r("goff"), src: r("l"), ty: TypeId::I32 });
    if with_barrier {
        push_op(&mut b, Op::Barrier);
    }
    push_const(&mut b, "one", TypeId::U32, 1);
    push_op(&mut b, Op::Add { dst: r("nx"), lhs: r("l"), rhs: r("one"), ty: TypeId::U32 });
    push_const(&mut b, "wgc", TypeId::U32, wg as i64);
    push_op(&mut b, Op::CmpEq { dst: r("wrap"), lhs: r("nx"), rhs: r("wgc"), ty: TypeId::U32 });
    push_op(&mut b, Op::If { cond: r("wrap"), then_body: wrap, else_body: Vec::new() });
    push_op(&mut b, Op::Mul { dst: r("noff"), lhs: r("nx"), rhs: r("four"), ty: TypeId::U64 });
    push_op(&mut b, Op::LoadGroup { dst: r("v"), addr: r("noff"), ty: TypeId::I32 });
    push_op(&mut b, Op::GlobalId { dst: r("i"), dim: 0 });
    push_offset(&mut b, "off", "i");
    push_element_addr(&mut b, "addr", "p", 0, "off");
    push_op(&mut b, Op::StoreGlobal { addr: r("addr"), src: r("v"), ty: TypeId::I32 });
    push_ret(&mut b);
    b
}

/// Group-memory exchange across a barrier: `out[i] = (lid + 1) % wg`.
pub fn group_exchange(wg: u32) -> (p: Program)
    requires
        wg <= 16384,
    ensures
        program_valid(p),
        p.name@ == "group_exchange"@,
        ops_have_barrier(p.body@),
        p.group_bytes == wg * 4,
{
    let b = group_exchange_body(wg, true);
    base("group_exchange", "SoftGPU-authored softgpu-sfir-v1 (group exchange)", b, one_ptr_layout(), wg * 4)
}

/// The group exchange without its barrier: reads race with the writes of
/// other lanes.
pub fn group_exchange_missing_barrier(wg: u32) -> (p: Program)
    requires
        wg <= 16384,
    ensures
        program_valid(p),
        p.name@ == "group_exchange_missing_barrier"@,
        !ops_have_barrier(p.body@),
        p.group_bytes == wg * 4,
{
    let b = group_exchange_body(wg, false);
    base(
        "group_exchange_missing_barrier",
        "SoftGPU-authored softgpu-sfir-v1 (group exchange, barrier removed)",
        b,
        one_ptr_layout(),
        wg * 4,
    )
}

/// `out[i] = atomic_add(counter, 1)`: counter pointer at kernel argument 0,
/// `out` at 8.
pub fn atomic_inc_reduce() -> (p: Program)
    ensures
        program_valid(p),
        p.name@ == "atomic_inc_reduce"@,
        !ops_have_barrier(p.body@),
        p.group_bytes == 0,
{
    let mut b: Vec<Op> = Vec::new();
    push_op(&mut b, Op::GlobalId { dst: r("i"), dim: 0 });
    push_op(&mut b, Op::KernargLoad { dst: r("pc"), offset: 0, ty: TypeId::U64 });
    push_const(&mut b, "one", TypeId::I32, 1);
    push_op(
        &mut b,
        Op::AtomicAdd {
            dst: r("old"),
            addr: r("pc"),
            src: r("one"),
            space: AddrSpace::Global,
            scope: AtomicScope::Device,
            order: AtomicOrder::Relaxed,
        },
    );
    push_offset(&mut b, "off", "i");
    push_element_addr(&mut b, "addr", "po", 8, "off");
    push_op(&mut b, Op::StoreGlobal { addr: r("addr"), src: r("old"), ty: TypeId::I32 });
    push_ret(&mut b);
    base("atomic_inc_reduce", "SoftGPU-authored softgpu-sfir-v1 (atomic counter)", b, two_ptr_layout(), 0)
}

/// A loop whose condition never clears: only the step budget stops it.
pub fn infinite_loop_watchdog() -> (p: Program)
    ensures
        program_valid(p),
        p.name@ == "infinite_loop_watchdog"@,
        !ops_have_barrier(p.body@),
{
    let mut body: Vec<Op> = Vec::new();
    push_const(&mut body, "z", TypeId::I32, 0);
    proof {
        super::ir::lemma_ops_valid_each(body@, false);
        assert(op_valid(body@[0], false));
        assert(!op_has_barrier(body@[0]));
        super::ir::lemma_ops_have_barrier_some(body@);
    }
    let mut b: Vec<Op> = Vec::new();
    push_const(&mut b, "one", TypeId::I32, 1);
    push_op(&mut b, Op::While { cond: r("one"), body });
    push_ret(&mut b);
    base("infinite_loop_watchdog", "SoftGPU-authored softgpu-sfir-v1 (watchdog)", b, Vec::new(), 0)
}

/// Stores one 32-bit value just past the end of an `n`-element buffer.
pub fn oob_store_past_end(n: u32) -> (p: Program)
    ensures
        program_valid(p),
        p.name@ == "oob_store_past_end"@,
        !ops_have_barrier(p.body@),
{
    let mut b: Vec<Op> = Vec::new();
    push_op(&mut b, Op::KernargLoad { dst: r("p"), offset: 0, ty: TypeId::U64 });
    push_const(&mut b, "end", TypeId::U64, n as i64 * 4);
    push_op(&mut b, Op::Add { dst: r("addr"), lhs: r("p"), rhs: r("end"), ty: TypeId::U64 });
    push_const(&mut b, "v", TypeId::I32, 7);
    push_op(&mut b, Op::StoreGlobal { addr: r("addr"), src: r("v"), ty: TypeId::I32 });
    push_ret(&mut b);
    base("oob_store_past_end", "SoftGPU-authored softgpu-sfir-v1 (out-of-bounds store)", b, one_ptr_layout(), 0)
}

/// Body of a kernel in which every work-item stores 0 to the first element.
fn store_zero_body() -> (b: Vec<Op>)
    ensures
        b@.len() > 0,
        b@.last() is Ret,
        ops_valid(b@, true),
        !ops_have_barrier(b@),
{
    let mut b: Vec<Op> = Vec::new();
    push_op(&mut b, Op::KernargLoad { dst: r("p"), offset: 0, ty: TypeId::U64 });
    push_const(&mut b, "z", TypeId::I32, 0);
    push_op(&mut b, Op::StoreGlobal { addr: r("p"), src: r("z"), ty: TypeId::I32 });
    push_ret(&mut b);
    b
}

/// Every work-item stores 0 to the same word: a race inside a workgroup.
pub fn race_all_store_global_zero() -> (p: Program)
    ensures
        program_valid(p),
        p.name@ == "race_all_store_global_zero"@,
        !ops_have_barrier(p.body@),
{
    base(
        "race_all_store_global_zero",
        "SoftGPU-authored softgpu-sfir-v1 (global store race)",
        store_zero_body(),
        one_ptr_layout(),
        0,
    )
}

/// Every work-item stores 0 to the same word: a race across workgroups when
/// launched with one work-item per workgroup.
pub fn cross_workgroup_store_zero() -> (p: Program)
    ensures
        program_valid(p),
        p.name@ == "cross_workgroup_store_zero"@,
        !ops_have_barrier(p.body@),
{
    base(
        "cross_workgroup_store_zero",
        "SoftGPU-authored softgpu-sfir-v1 (cross-workgroup store race)",
        store_zero_body(),
        one_ptr_layout(),
        0,
    )
}

/// Reads group memory that no lane wrote, then stores the value.
pub fn uninit_group_read() -> (p: Program)
    ensures
        program_valid(p),
        p.name@ == "uninit_group_read"@,
        !ops_have_barrier(p.body@),
        p.group_bytes == 4,
{
    let mut b: Vec<Op> = Vec::new();
    push_const(&mut b, "z", TypeId::U64, 0);
    push_op(&mut b, Op::LoadGroup { dst: r("v"), addr: r("z"), ty: TypeId::I32 });
    push_op(&mut b, Op::KernargLoad { dst: r("p"), offset: 0, ty: TypeId::U64 });
    push_op(&mut b, Op::StoreGlobal { addr: r("p"), src: r("v"), ty: TypeId::I32 });
    push_ret(&mut b);
    base("uninit_group_read", "SoftGPU-authored softgpu-sfir-v1 (uninitialized group read)", b, one_ptr_layout(), 4)
}

/// A 16-byte kernel-argument block holding two little-endian pointers.
pub fn kernarg_two_ptrs(a: u64, b: u64) -> (k: [u8; 16])
    ensures
        k@ == le_bytes(a as int, 8) + le_bytes(b as int, 8),
{
    let mut v: Vec<u8> = Vec::new();
    push_le_u64(&mut v, a);
    push_le_u64(&mut v, b);
    assert(v@ =~= le_bytes(a as int, 8) + le_bytes(b as int, 8));
    let k = [v[0], v[1], v[2], v[3], v[4], v[5], v[6], v[7], v[8], v[9], v[10], v[11], v[12], v[13], v[14], v[15]];
    assert(k@ =~= v@);
    k
}

/// An 8-byte kernel-argument block holding one little-endian pointer.
pub fn kernarg_one_ptr(p: u64) -> (k: [u8; 8])
    ensures
        k@ == le_bytes(p as int, 8),
{
    let mut v: Vec<u8> = Vec::new();
    push_le_u64(&mut v, p);
    assert(v@ =~= le_bytes(p as int, 8));
    let k = [v[0], v[1], v[2], v[3], v[4], v[5], v[6], v[7]];
    assert(k@ =~= v@);
    k
}

} // verus!
