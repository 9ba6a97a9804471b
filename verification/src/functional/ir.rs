//! The functional IR: typed scalar ops, work-item ids, global and group
//! memory, barriers, structured divergence and atomics. Unknown ops cannot be
//! represented, so a program that parses is made only of these ops.
use super::error::FunctionalError;
use crate::text::str_eq;
use vstd::prelude::*;

verus! {

/// Schema id carried by every program document.
pub const SFIR_SCHEMA: &'static str = "softgpu-sfir-v1";

/// The only fidelity a functional program may claim.
pub const FUNCTIONAL_FIDELITY: &'static str = "functional";

/// The honesty note every functional program carries.
pub const NOT_ISA_NOTE: &'static str = "not_gfx1201_isa_emulation";

/// Scalar types of the IR.
#[derive(Debug, Clone, Copy, PartialEq, Eq, Structural)]
pub enum TypeId {
    I32,
    U32,
    U64,
}

/// Address spaces an access can target.
#[derive(Debug, Clone, Copy, PartialEq, Eq, Structural)]
pub enum AddrSpace {
    Global,
    Group,
}

/// Scope of an atomic (a functional label, not a memory-model claim).
#[derive(Debug, Clone, Copy, PartialEq, Eq, Structural)]
pub enum AtomicScope {
    Workgroup,
    Device,
}

/// Order of an atomic (a functional label, not a memory-model claim).
#[derive(Debug, Clone, Copy, PartialEq, Eq, Structural)]
pub enum AtomicOrder {
    Relaxed,
    AcqRel,
}

/// One IR operation. Registers are named by strings.
#[derive(Debug, PartialEq)]
pub enum Op {
    Const { dst: String, ty: TypeId, value: i64 },
    GlobalId { dst: String, dim: u8 },
    LocalId { dst: String, dim: u8 },
    WorkgroupId { dst: String, dim: u8 },
    /// Lane index within the software wave (`flat_local % wave_size`).
    LaneId { dst: String },
    /// Wave index within the workgroup (`flat_local / wave_size`).
    WaveId { dst: String },
    WaveSize { dst: String },
    Add { dst: String, lhs: String, rhs: String, ty: TypeId },
    Sub { dst: String, lhs: String, rhs: String, ty: TypeId },
    Mul { dst: String, lhs: String, rhs: String, ty: TypeId },
    CmpEq { dst: String, lhs: String, rhs: String, ty: TypeId },
    CmpNe { dst: String, lhs: String, rhs: String, ty: TypeId },
    And { dst: String, lhs: String, rhs: String, ty: TypeId },
    KernargLoad { dst: String, offset: u32, ty: TypeId },
    LoadGlobal { dst: String, addr: String, ty: TypeId },
    StoreGlobal { addr: String, src: String, ty: TypeId },
    LoadGroup { dst: String, addr: String, ty: TypeId },
    StoreGroup { addr: String, src: String, ty: TypeId },
    /// Workgroup barrier; only legal at the top level of a body.
    Barrier,
    /// Active lanes with `cond != 0` run `then_body`, the others `else_body`.
    If { cond: String, then_body: Vec<Op>, else_body: Vec<Op> },
    /// While any active lane has `cond != 0`, those lanes run `body`.
    While { cond: String, body: Vec<Op> },
    /// `dst = old value at addr`, then `*addr = old + src` (32-bit wrapping).
    AtomicAdd {
        dst: String,
        addr: String,
        src: String,
        space: AddrSpace,
        scope: AtomicScope,
        order: AtomicOrder,
    },
    Ret,
}

/// One named slot of the kernel-argument block.
#[derive(Debug, Clone, PartialEq)]
pub struct KernargField {
    pub name: String,
    pub offset: u32,
    pub size: u32,
    pub kind: String,
}

/// A functional IR program.
#[derive(Debug, PartialEq)]
pub struct Program {
    pub schema: String,
    pub fidelity: String,
    pub note: String,
    pub name: String,
    pub source_provenance: String,
    pub kernarg_layout: Vec<KernargField>,
    /// Group memory bytes the program needs.
    pub group_bytes: u32,
    pub body: Vec<Op>,
}

/// An op is well formed: dimensions are at most 2, barriers appear only
/// where `allow_barrier` holds, and nested bodies never hold a barrier.
pub open spec fn op_valid(op: Op, allow_barrier: bool) -> bool
    decreases op,
{
    match op {
        Op::GlobalId { dim, .. } => dim <= 2,
        Op::LocalId { dim, .. } => dim <= 2,
        Op::WorkgroupId { dim, .. } => dim <= 2,
        Op::Barrier => allow_barrier,
        Op::If { then_body, else_body, .. } => ops_valid(then_body@, false) && ops_valid(else_body@, false),
        Op::While { body, .. } => ops_valid(body@, false),
        _ => true,
    }
}

/// Every op of the sequence is well formed.
pub open spec fn ops_valid(s: Seq<Op>, allow_barrier: bool) -> bool
    decreases s,
{
    if s.len() == 0 {
        true
    } else {
        ops_valid(s.drop_last(), allow_barrier) && op_valid(s.last(), allow_barrier)
    }
}

/// The op is a barrier or holds one in a nested body.
pub open spec fn op_has_barrier(op: Op) -> bool
    decreases op,
{
    match op {
        Op::Barrier => true,
        Op::If { then_body, else_body, .. } => ops_have_barrier(then_body@) || ops_have_barrier(else_body@),
        Op::While { body, .. } => ops_have_barrier(body@),
        _ => false,
    }
}

/// Some op of the sequence is or holds a barrier.
pub open spec fn ops_have_barrier(s: Seq<Op>) -> bool
    decreases s,
{
    if s.len() == 0 {
        false
    } else {
        ops_have_barrier(s.drop_last()) || op_has_barrier(s.last())
    }
}

/// `ops_valid` holds exactly when each op is well formed.
pub proof fn lemma_ops_valid_each(s: Seq<Op>, allow_barrier: bool)
    ensures
        ops_valid(s, allow_barrier) <==> forall|k: int| 0 <= k < s.len() ==> #[trigger] op_valid(s[k], allow_barrier),
    decreases s.len(),
{
    if s.len() > 0 {
        lemma_ops_valid_each(s.drop_last(), allow_barrier);
        assert forall|k: int| 0 <= k < s.len() - 1 implies s.drop_last()[k] == s[k] by {}
        if ops_valid(s, allow_barrier) {
            assert forall|k: int| 0 <= k < s.len() implies #[trigger] op_valid(s[k], allow_barrier) by {
                if k < s.len() - 1 {
                    assert(op_valid(s.drop_last()[k], allow_barrier));
                }
            }
        }
        if forall|k: int| 0 <= k < s.len() ==> #[trigger] op_valid(s[k], allow_barrier) {
            assert(op_valid(s[s.len() - 1], allow_barrier));
            assert forall|k: int| 0 <= k < s.drop_last().len() implies #[trigger] op_valid(
                s.drop_last()[k],
                allow_barrier,
            ) by {
                assert(op_valid(s[k], allow_barrier));
            }
        }
    }
}

/// `ops_have_barrier` holds exactly when some op is or holds a barrier.
pub proof fn lemma_ops_have_barrier_some(s: Seq<Op>)
    ensures
        ops_have_barrier(s) <==> exists|k: int| 0 <= k < s.len() && #[trigger] op_has_barrier(s[k]),
    decreases s.len(),
{
    if s.len() > 0 {
        lemma_ops_have_barrier_some(s.drop_last());
        if ops_have_barrier(s.drop_last()) {
            let k = choose|k: int| 0 <= k < s.drop_last().len() && #[trigger] op_has_barrier(s.drop_last()[k]);
            assert(op_has_barrier(s[k]));
        }
        if op_has_barrier(s.last()) {
            assert(op_has_barrier(s[s.len() - 1]));
        }
        if exists|k: int| 0 <= k < s.len() && #[trigger] op_has_barrier(s[k]) {
            let k = choose|k: int| 0 <= k < s.len() && #[trigger] op_has_barrier(s[k]);
            if k < s.len() - 1 {
                assert(op_has_barrier(s.drop_last()[k]));
            }
        }
    }
}

/// A program passes validation: the honesty fields are exact, the body is
/// non-empty and ends with `ret`, and every op is well formed.
pub open spec fn program_valid(p: Program) -> bool {
    &&& p.schema@ == SFIR_SCHEMA@
    &&& p.fidelity@ == FUNCTIONAL_FIDELITY@
    &&& p.note@ == NOT_ISA_NOTE@
    &&& p.body@.len() > 0
    &&& p.body@.last() is Ret
    &&& ops_valid(p.body@, true)
}

/// The detail of the error the first malformed op gives, if any.
pub open spec fn op_error(op: Op, allow_barrier: bool) -> Option<Seq<char>>
    decreases op,
{
    match op {
        Op::GlobalId { dim, .. } => if dim > 2 { Some("dim out of range 0..=2"@) } else { None },
        Op::LocalId { dim, .. } => if dim > 2 { Some("dim out of range 0..=2"@) } else { None },
        Op::WorkgroupId { dim, .. } => if dim > 2 { Some("dim out of range 0..=2"@) } else { None },
        Op::Barrier => if allow_barrier {
            None
        } else {
            Some("barrier is illegal inside if/while (divergent barrier unsupported)"@)
        },
        Op::If { then_body, else_body, .. } => match ops_error(then_body@, false) {
            Some(e) => Some(e),
            None => ops_error(else_body@, false),
        },
        Op::While { body, .. } => ops_error(body@, false),
        _ => None,
    }
}

/// The detail of the error the first malformed op of `s` gives, if any.
pub open spec fn ops_error(s: Seq<Op>, allow_barrier: bool) -> Option<Seq<char>>
    decreases s,
{
    if s.len() == 0 {
        None
    } else {
        match ops_error(s.drop_last(), allow_barrier) {
            Some(e) => Some(e),
            None => op_error(s.last(), allow_barrier),
        }
    }
}

/// An error found in a prefix is the error of the whole sequence.
proof fn lemma_ops_error_prefix(s: Seq<Op>, n: int, allow_barrier: bool)
    requires
        0 <= n <= s.len(),
        ops_error(s.subrange(0, n), allow_barrier) is Some,
    ensures
        ops_error(s, allow_barrier) == ops_error(s.subrange(0, n), allow_barrier),
    decreases s.len() - n,
{
    if n < s.len() {
        assert(s.subrange(0, n + 1).drop_last() =~= s.subrange(0, n));
        lemma_ops_error_prefix(s, n + 1, allow_barrier);
    } else {
        assert(s.subrange(0, n) =~= s);
    }
}

/// With no error before `i`, the error of `s[..=i]` is that of `s[i]`.
proof fn lemma_ops_error_step(s: Seq<Op>, i: int, allow_barrier: bool)
    requires
        0 <= i < s.len(),
        ops_error(s.subrange(0, i), allow_barrier) is None,
    ensures
        ops_error(s.subrange(0, i + 1), allow_barrier) == op_error(s[i], allow_barrier),
{
    assert(s.subrange(0, i + 1).drop_last() =~= s.subrange(0, i));
}

/// With no error before `i` and one at `s[i]`, that is the error of `s`.
proof fn lemma_ops_error_at(s: Seq<Op>, i: int, allow_barrier: bool)
    requires
        0 <= i < s.len(),
        ops_error(s.subrange(0, i), allow_barrier) is None,
        op_error(s[i], allow_barrier) is Some,
    ensures
        ops_error(s, allow_barrier) == op_error(s[i], allow_barrier),
{
    lemma_ops_error_step(s, i, allow_barrier);
    lemma_ops_error_prefix(s, i + 1, allow_barrier);
}

/// The detail of the error a malformed program is refused with.
pub open spec fn program_error(p: Program) -> Seq<char> {
    if p.schema@ != SFIR_SCHEMA@ {
        "schema is not softgpu-sfir-v1"@
    } else if p.fidelity@ != FUNCTIONAL_FIDELITY@ {
        "fidelity must be 'functional'"@
    } else if p.note@ != NOT_ISA_NOTE@ {
        "note must be 'not_gfx1201_isa_emulation'"@
    } else if p.body@.len() == 0 {
        "empty body"@
    } else if !(p.body@.last() is Ret) {
        "body must end with ret"@
    } else {
        ops_error(p.body@, true)->0
    }
}

/// Checks each op of `ops` (and of nested bodies).
pub fn validate_ops(ops: &Vec<Op>, allow_barrier: bool) -> (r: Result<(), FunctionalError>)
    ensures
        r is Ok <==> ops_valid(ops@, allow_barrier),
        r is Err ==> r->Err_0 is Validation,
        r is Ok ==> ops_error(ops@, allow_barrier) is None,
        r matches Err(e) ==> (ops_error(ops@, allow_barrier) matches Some(d) && e matches FunctionalError::Validation {
            detail,
        } && detail@ == d),
    decreases ops@,
{
    let mut i: usize = 0;
    while i < ops.len()
        invariant
            i <= ops@.len(),
            ops_error(ops@.subrange(0, i as int), allow_barrier) is None,
            forall|k: int| 0 <= k < i ==> #[trigger] op_valid(ops@[k], allow_barrier),
        decreases ops@.len() - i,
    {
        let op = &ops[i];
        match op {
            Op::GlobalId { dim, .. } | Op::LocalId { dim, .. } | Op::WorkgroupId { dim, .. } => {
                if *dim > 2 {
                    proof { lemma_ops_valid_each(ops@, allow_barrier); }
                    assert(!op_valid(ops@[i as int], allow_barrier));
                    proof { lemma_ops_error_at(ops@, i as int, allow_barrier); }
                    return Err(FunctionalError::validation("dim out of range 0..=2"));
                }
            },
            Op::Barrier => {
                if !allow_barrier {
                    proof { lemma_ops_valid_each(ops@, allow_barrier); }
                    assert(!op_valid(ops@[i as int], allow_barrier));
                    proof { lemma_ops_error_at(ops@, i as int, allow_barrier); }
                    return Err(
                        FunctionalError::validation(
                            "barrier is illegal inside if/while (divergent barrier unsupported)",
                        ),
                    );
                }
            },
            Op::If { then_body, else_body, .. } => {
                assert(decreases_to!(ops@ => ops@[i as int]));
                let a = validate_ops(then_body, false);
                if a.is_err() {
                    proof { lemma_ops_valid_each(ops@, allow_barrier); }
                    assert(!op_valid(ops@[i as int], allow_barrier));
                    proof { lemma_ops_error_at(ops@, i as int, allow_barrier); }
                    return a;
                }
                let b = validate_ops(else_body, false);
                if b.is_err() {
                    proof { lemma_ops_valid_each(ops@, allow_barrier); }
                    assert(!op_valid(ops@[i as int], allow_barrier));
                    proof { lemma_ops_error_at(ops@, i as int, allow_barrier); }
                    return b;
                }
            },
            Op::While { body, .. } => {
                assert(decreases_to!(ops@ => ops@[i as int]));
                let a = validate_ops(body, false);
                if a.is_err() {
                    proof { lemma_ops_valid_each(ops@, allow_barrier); }
                    assert(!op_valid(ops@[i as int], allow_barrier));
                    proof { lemma_ops_error_at(ops@, i as int, allow_barrier); }
                    return a;
                }
            },
            _ => {},
        }
        assert(op_valid(ops@[i as int], allow_barrier));
        proof { lemma_ops_error_step(ops@, i as int, allow_barrier); }
        i = i + 1;
    }
    proof {
        lemma_ops_valid_each(ops@, allow_barrier);
        assert(ops@.subrange(0, ops@.len() as int) =~= ops@);
    }
    Ok(())
}

/// Whether some op of `ops` is or holds a barrier.
pub fn ops_contain_barrier(ops: &Vec<Op>) -> (r: bool)
    ensures
        r == ops_have_barrier(ops@),
    decreases ops@,
{
    let mut i: usize = 0;
    while i < ops.len()
        invariant
            i <= ops@.len(),
            forall|k: int| 0 <= k < i ==> !#[trigger] op_has_barrier(ops@[k]),
        decreases ops@.len() - i,
    {
        let op = &ops[i];
        let found = match op {
            Op::Barrier => true,
            Op::If { then_body, else_body, .. } => {
                assert(decreases_to!(ops@ => ops@[i as int]));
                ops_contain_barrier(then_body) || ops_contain_barrier(else_body)
            },
            Op::While { body, .. } => {
                assert(decreases_to!(ops@ => ops@[i as int]));
                ops_contain_barrier(body)
            },
            _ => false,
        };
        assert(found == op_has_barrier(ops@[i as int]));
        if found {
            proof { lemma_ops_have_barrier_some(ops@); }
            assert(0 <= i < ops@.len() && op_has_barrier(ops@[i as int]));
            return true;
        }
        i = i + 1;
    }
    proof { lemma_ops_have_barrier_some(ops@); }
    false
}

impl Program {
    /// Fails closed unless the program is well formed.
    pub fn validate(&self) -> (r: Result<(), FunctionalError>)
        ensures
            r is Ok <==> program_valid(*self),
            r is Err ==> r->Err_0 is Validation,
            r matches Err(e) ==> (e matches FunctionalError::Validation { detail } && detail@ == program_error(*self)),
    {
        if !str_eq(self.schema.as_str(), SFIR_SCHEMA) {
            return Err(FunctionalError::validation("schema is not softgpu-sfir-v1"));
        }
        if !str_eq(self.fidelity.as_str(), FUNCTIONAL_FIDELITY) {
            return Err(FunctionalError::validation("fidelity must be 'functional'"));
        }
        if !str_eq(self.note.as_str(), NOT_ISA_NOTE) {
            return Err(FunctionalError::validation("note must be 'not_gfx1201_isa_emulation'"));
        }
        if self.body.len() == 0 {
            return Err(FunctionalError::validation("empty body"));
        }
        let last = &self.body[self.body.len() - 1];
        if !matches!(last, Op::Ret) {
            return Err(FunctionalError::validation("body must end with ret"));
        }
        validate_ops(&self.body, true)
    }

    /// Whether the body holds a barrier at any depth.
    pub fn has_barrier(&self) -> (r: bool)
        ensures
            r == ops_have_barrier(self.body@),
    {
        ops_contain_barrier(&self.body)
    }
}

/// Index bounds of the barrier-separated segments of `s[i..]`, where the
/// current segment began at `start`: a barrier closes a segment, the first
/// `ret` closes the last one, and ops after it are ignored. A trailing run
/// with neither is not a segment.
pub open spec fn segments_from(s: Seq<Op>, i: int, start: int) -> Seq<(int, int)>
    decreases s.len() - i,
{
    if i < 0 || i >= s.len() {
        Seq::empty()
    } else if s[i] is Barrier {
        seq![(start, i)] + segments_from(s, i + 1, i + 1)
    } else if s[i] is Ret {
        seq![(start, i)]
    } else {
        segments_from(s, i + 1, start)
    }
}

/// The barrier-separated segments of a top-level body.
pub open spec fn segments_of(s: Seq<Op>) -> Seq<(int, int)> {
    segments_from(s, 0, 0)
}

/// Each segment bound lies inside the body, in order.
pub proof fn lemma_segments_from_bounds(s: Seq<Op>, i: int, start: int)
    requires
        0 <= start <= i,
    ensures
        forall|k: int|
            0 <= k < segments_from(s, i, start).len() ==> start <= (#[trigger] segments_from(s, i, start)[k]).0
                <= segments_from(s, i, start)[k].1 < s.len(),
    decreases s.len() - i,
{
    if 0 <= i < s.len() {
        if s[i] is Barrier {
            lemma_segments_from_bounds(s, i + 1, i + 1);
            let rest = segments_from(s, i + 1, i + 1);
            assert(segments_from(s, i, start) == seq![(start, i)] + rest);
            assert forall|k: int| 0 <= k < segments_from(s, i, start).len() implies start <= (
            #[trigger] segments_from(s, i, start)[k]).0 <= segments_from(s, i, start)[k].1 < s.len() by {
                if k == 0 {
                    assert(segments_from(s, i, start)[k] == (start, i));
                } else {
                    assert(segments_from(s, i, start)[k] == rest[k - 1]);
                }
            }
        } else if s[i] is Ret {
            assert(segments_from(s, i, start) == seq![(start, i)]);
        } else {
            lemma_segments_from_bounds(s, i + 1, start);
            assert(segments_from(s, i, start) == segments_from(s, i + 1, start));
        }
    }
}

/// Bounds `(start, end)` of the barrier-separated segments of `body`.
pub fn segment_bounds(body: &Vec<Op>) -> (r: Result<Vec<(usize, usize)>, FunctionalError>)
    ensures
        match r {
            Ok(v) => {
                &&& segments_of(body@).len() > 0
                &&& v@.len() == segments_of(body@).len()
                &&& forall|k: int|
                    0 <= k < v@.len() ==> (#[trigger] v@[k]).0 == segments_of(body@)[k].0 && v@[k].1
                        == segments_of(body@)[k].1
            },
            Err(e) => segments_of(body@).len() == 0 && e is Validation,
        },
{
    let mut out: Vec<(usize, usize)> = Vec::new();
    let mut start: usize = 0;
    let mut i: usize = 0;
    let n = body.len();
    let mut done = false;
    while i < n && !done
        invariant
            n == body@.len(),
            start <= i <= n,
            done ==> out@.len() > 0,
            !done ==> segments_of(body@) =~= out@.map_values(|p: (usize, usize)| (p.0 as int, p.1 as int))
                + segments_from(body@, i as int, start as int),
            done ==> segments_of(body@) =~= out@.map_values(|p: (usize, usize)| (p.0 as int, p.1 as int)),
        decreases n - i + (if done { 0int } else { 1int }),
    {
        let ghost before = out@.map_values(|p: (usize, usize)| (p.0 as int, p.1 as int));
        match &body[i] {
            Op::Barrier => {
                out.push((start, i));
                assert(out@.map_values(|p: (usize, usize)| (p.0 as int, p.1 as int)) =~= before + seq![
                    (start as int, i as int),
                ]);
                start = i + 1;
            },
            Op::Ret => {
                out.push((start, i));
                assert(out@.map_values(|p: (usize, usize)| (p.0 as int, p.1 as int)) =~= before + seq![
                    (start as int, i as int),
                ]);
                done = true;
            },
            _ => {},
        }
        if !done {
            i = i + 1;
        }
    }
    let ghost m = out@.map_values(|p: (usize, usize)| (p.0 as int, p.1 as int));
    assert(segments_of(body@) =~= m);
    if out.len() == 0 {
        return Err(FunctionalError::validation("empty barrier segments"));
    }
    Ok(out)
}

/// Two ops are the same up to the identity of their nested vectors.
pub open spec fn op_eqv(a: Op, b: Op) -> bool
    decreases a,
{
    match a {
        Op::If { cond, then_body, else_body } => match b {
            Op::If { cond: c2, then_body: t2, else_body: e2 } => cond == c2 && ops_eqv(then_body@, t2@)
                && ops_eqv(else_body@, e2@),
            _ => false,
        },
        Op::While { cond, body } => match b {
            Op::While { cond: c2, body: b2 } => cond == c2 && ops_eqv(body@, b2@),
            _ => false,
        },
        _ => a == b,
    }
}

/// Two op sequences are element-wise `op_eqv`.
pub open spec fn ops_eqv(s: Seq<Op>, t: Seq<Op>) -> bool
    decreases s,
{
    if s.len() == 0 {
        t.len() == 0
    } else {
        t.len() == s.len() && ops_eqv(s.drop_last(), t.drop_last()) && op_eqv(s.last(), t.last())
    }
}

/// A deep copy of an op.
pub fn copy_op(op: &Op) -> (r: Op)
    ensures
        op_eqv(*op, r),
    decreases op,
{
    match op {
        Op::Const { dst, ty, value } => Op::Const { dst: dst.clone(), ty: *ty, value: *value },
        Op::GlobalId { dst, dim } => Op::GlobalId { dst: dst.clone(), dim: *dim },
        Op::LocalId { dst, dim } => Op::LocalId { dst: dst.clone(), dim: *dim },
        Op::WorkgroupId { dst, dim } => Op::WorkgroupId { dst: dst.clone(), dim: *dim },
        Op::LaneId { dst } => Op::LaneId { dst: dst.clone() },
        Op::WaveId { dst } => Op::WaveId { dst: dst.clone() },
        Op::WaveSize { dst } => Op::WaveSize { dst: dst.clone() },
        Op::Add { dst, lhs, rhs, ty } => Op::Add { dst: dst.clone(), lhs: lhs.clone(), rhs: rhs.clone(), ty: *ty },
        Op::Sub { dst, lhs, rhs, ty } => Op::Sub { dst: dst.clone(), lhs: lhs.clone(), rhs: rhs.clone(), ty: *ty },
        Op::Mul { dst, lhs, rhs, ty } => Op::Mul { dst: dst.clone(), lhs: lhs.clone(), rhs: rhs.clone(), ty: *ty },
        Op::CmpEq { dst, lhs, rhs, ty } => Op::CmpEq {
            dst: dst.clone(),
            lhs: lhs.clone(),
            rhs: rhs.clone(),
            ty: *ty,
        },
        Op::CmpNe { dst, lhs, rhs, ty } => Op::CmpNe {
            dst: dst.clone(),
            lhs: lhs.clone(),
            rhs: rhs.clone(),
            ty: *ty,
        },
        Op::And { dst, lhs, rhs, ty } => Op::And { dst: dst.clone(), lhs: lhs.clone(), rhs: rhs.clone(), ty: *ty },
        Op::KernargLoad { dst, offset, ty } => Op::KernargLoad { dst: dst.clone(), offset: *offset, ty: *ty },
        Op::LoadGlobal { dst, addr, ty } => Op::LoadGlobal { dst: dst.clone(), addr: addr.clone(), ty: *ty },
        Op::StoreGlobal { addr, src, ty } => Op::StoreGlobal { addr: addr.clone(), src: src.clone(), ty: *ty },
        Op::LoadGroup { dst, addr, ty } => Op::LoadGroup { dst: dst.clone(), addr: addr.clone(), ty: *ty },
        Op::StoreGroup { addr, src, ty } => Op::StoreGroup { addr: addr.clone(), src: src.clone(), ty: *ty },
        Op::Barrier => Op::Barrier,
        Op::If { cond, then_body, else_body } => Op::If {
            cond: cond.clone(),
            then_body: copy_ops(then_body),
            else_body: copy_ops(else_body),
        },
        Op::While { cond, body } => Op::While { cond: cond.clone(), body: copy_ops(body) },
        Op::AtomicAdd { dst, addr, src, space, scope, order } => Op::AtomicAdd {
            dst: dst.clone(),
            addr: addr.clone(),
            src: src.clone(),
            space: *space,
            scope: *scope,
            order: *order,
        },
        Op::Ret => Op::Ret,
    }
}

/// A deep copy of an op vector.
pub fn copy_ops(ops: &Vec<Op>) -> (r: Vec<Op>)
    ensures
        ops_eqv(ops@, r@),
    decreases ops,
{
    let mut out: Vec<Op> = Vec::new();
    let mut i: usize = 0;
    while i < ops.len()
        invariant
            i <= ops@.len(),
            ops_eqv(ops@.subrange(0, i as int), out@),
        decreases ops@.len() - i,
    {
        assert(decreases_to!(ops => ops@[i as int]));
        let c = copy_op(&ops[i]);
        let ghost prev = out@;
        out.push(c);
        assert(ops@.subrange(0, i + 1).drop_last() =~= ops@.subrange(0, i as int));
        assert(out@.drop_last() =~= prev);
        i = i + 1;
    }
    assert(ops@.subrange(0, ops@.len() as int) =~= ops@);
    out
}

/// A copy of `s[lo..hi]`.
fn copy_range(s: &Vec<Op>, lo: usize, hi: usize) -> (r: Vec<Op>)
    requires
        lo <= hi <= s@.len(),
    ensures
        ops_eqv(s@.subrange(lo as int, hi as int), r@),
{
    let mut out: Vec<Op> = Vec::new();
    let mut i: usize = lo;
    while i < hi
        invariant
            lo <= i <= hi <= s@.len(),
            ops_eqv(s@.subrange(lo as int, i as int), out@),
        decreases hi - i,
    {
        let c = copy_op(&s[i]);
        let ghost prev = out@;
        out.push(c);
        assert(s@.subrange(lo as int, i + 1).drop_last() =~= s@.subrange(lo as int, i as int));
        assert(out@.drop_last() =~= prev);
        i = i + 1;
    }
    out
}

/// Splits a top-level body into its barrier-separated segments; the `ret`
/// that ends the body is not part of any segment.
pub fn barrier_segments(body: &Vec<Op>) -> (r: Result<Vec<Vec<Op>>, FunctionalError>)
    ensures
        match r {
            Ok(v) => {
                &&& v@.len() == segments_of(body@).len() > 0
                &&& forall|k: int|
                    0 <= k < v@.len() ==> ops_eqv(
                        body@.subrange(segments_of(body@)[k].0, segments_of(body@)[k].1),
                        (#[trigger] v@[k])@,
                    )
            },
            Err(e) => segments_of(body@).len() == 0 && e is Validation,
        },
{
    let bounds = segment_bounds(body)?;
    proof { lemma_segments_from_bounds(body@, 0, 0); }
    let mut out: Vec<Vec<Op>> = Vec::new();
    let mut k: usize = 0;
    while k < bounds.len()
        invariant
            k <= bounds@.len(),
            bounds@.len() == segments_of(body@).len(),
            forall|j: int|
                0 <= j < bounds@.len() ==> (#[trigger] bounds@[j]).0 == segments_of(body@)[j].0 && bounds@[j].1
                    == segments_of(body@)[j].1,
            forall|j: int|
                0 <= j < segments_of(body@).len() ==> 0 <= (#[trigger] segments_of(body@)[j]).0
                    <= segments_of(body@)[j].1 < body@.len(),
            out@.len() == k,
            forall|j: int|
                0 <= j < k ==> ops_eqv(
                    body@.subrange(segments_of(body@)[j].0, segments_of(body@)[j].1),
                    (#[trigger] out@[j])@,
                ),
        decreases bounds@.len() - k,
    {
        let (lo, hi) = bounds[k];
        assert(segments_of(body@)[k as int].0 == lo);
        let seg = copy_range(body, lo, hi);
        out.push(seg);
        k = k + 1;
    }
    Ok(out)
}

} // verus!
