//! One-dimensional kernel launches under the SoftGPU calling convention.
//!
//! Before entry `s[4:5]` holds the kernarg address, `v0` of each active lane
//! its global id x, and EXEC enables the lanes below the grid size.
use super::arch::{lanes_spec, Arch, WaveSize};
use super::error::{IsaError, IsaErrorKind};
use super::exec::{run, steps_rel};
use super::mem::IsaMemory;
use super::state::{MachineState, MachineView, SGPR_COUNT, VGPR_PER_LANE};
use vstd::prelude::*;

verus! {

/// llvm-mc assembled `.text` of `tiny_add` (`b[i] = a[i] + 1` on i32):
/// two `s_load_b64`, `s_waitcnt`, `v_lshlrev_b32`, `global_load_b32`,
/// `s_waitcnt`, `v_add_nc_u32`, `global_store_b32`, `s_endpgm`.
pub open spec fn tiny_add_text_spec() -> Seq<u8> {
    seq![
        0x02u8, 0x20, 0x00, 0xf4, 0x00, 0x00, 0x00, 0xf8, 0x82, 0x20, 0x00, 0xf4, 0x08, 0x00, 0x00, 0xf8,
        0x00, 0x00, 0x89, 0xbf, 0x82, 0x00, 0x02, 0x30, 0x00, 0x00, 0x05, 0xee, 0x02, 0x00, 0x00, 0x00,
        0x01, 0x00, 0x00, 0x00, 0x00, 0x00, 0x89, 0xbf, 0x81, 0x04, 0x04, 0x4a, 0x02, 0x80, 0x06, 0xee,
        0x00, 0x00, 0x00, 0x01, 0x01, 0x00, 0x00, 0x00, 0x00, 0x00, 0xb0, 0xbf,
    ]
}

/// The `tiny_add` kernel text.
pub fn tiny_add_text() -> (r: Vec<u8>)
    ensures
        r@ == tiny_add_text_spec(),
{
    let r: Vec<u8> = vec![
        0x02u8, 0x20, 0x00, 0xf4, 0x00, 0x00, 0x00, 0xf8, 0x82, 0x20, 0x00, 0xf4, 0x08, 0x00, 0x00, 0xf8,
        0x00, 0x00, 0x89, 0xbf, 0x82, 0x00, 0x02, 0x30, 0x00, 0x00, 0x05, 0xee, 0x02, 0x00, 0x00, 0x00,
        0x01, 0x00, 0x00, 0x00, 0x00, 0x00, 0x89, 0xbf, 0x81, 0x04, 0x04, 0x4a, 0x02, 0x80, 0x06, 0xee,
        0x00, 0x00, 0x00, 0x01, 0x01, 0x00, 0x00, 0x00, 0x00, 0x00, 0xb0, 0xbf,
    ];
    assert(r@ =~= tiny_add_text_spec());
    r
}

/// Kernarg layout of `tiny_add`: two device pointers.
#[derive(Debug, Clone, Copy)]
pub struct TinyAddKernarg {
    pub a_addr: u64,
    pub b_addr: u64,
}

/// Run `tiny_add` over `grid_x` work-items, a wave at a time.
pub fn run_tiny_add_1d<M: IsaMemory>(mem: &mut M, kernarg_addr: u64, grid_x: u32, wave_size: WaveSize) -> (r: Result<
    u64,
    IsaError,
>)
    ensures
        grid_x == 0 ==> r == Ok::<u64, IsaError>(0),
        r matches Ok(n) ==> (grid_x > 0 ==> n > 0),
        r is Ok ==> launch_rel(tiny_add_text_spec(), wave_size, kernarg_addr, grid_x as int, *old(mem), *final(mem)),
{
    let code = tiny_add_text();
    run_code_1d(code.as_slice(), mem, kernarg_addr, grid_x, wave_size)
}

fn set_lane_reg(st: &mut MachineState, lane: usize, reg: usize, value: u32)
    requires
        old(st).wf(),
        lane < old(st).vgpr@.len(),
        reg < VGPR_PER_LANE,
    ensures
        final(st).wf(),
        final(st).wave_size == old(st).wave_size,
        final(st).halted == old(st).halted,
        final(st).view() == (MachineView {
            vgpr: old(st).view().vgpr.update(lane as int, old(st).view().vgpr[lane as int].update(reg as int, value)),
            ..old(st).view()
        }),
{
    let mut row = st.vgpr[lane].clone();
    assert(row@ =~= st.vgpr@[lane as int]@);
    row.set(reg, value);
    let ghost v0 = st.view();
    st.vgpr.set(lane, row);
    assert(st.view().vgpr =~= v0.vgpr.update(lane as int, v0.vgpr[lane as int].update(reg as int, value)));
}

/// Whether lane `l` of the wave starting at global id `base` is inside a
/// grid of `grid_x` work-items.
pub open spec fn lane_in_grid(ws: WaveSize, base: int, grid_x: int, l: int) -> bool {
    0 <= l < lanes_spec(ws) && base + l < grid_x
}

/// The view a wave of a 1-D launch starts in: PC 0, every register zero but
/// the kernarg address in `s[4:5]` and, in `v0` of each lane inside the
/// grid, its global id; EXEC enables exactly the lanes inside the grid.
pub open spec fn wave_start(v: MachineView, ws: WaveSize, kernarg_addr: u64, base: int, grid_x: int) -> bool {
    &&& v.wave_size == ws
    &&& v.pc == 0
    &&& !v.halted
    &&& !v.scc
    &&& v.vcc == 0
    &&& v.sgpr.len() == SGPR_COUNT
    &&& forall|i: int|
        0 <= i < SGPR_COUNT ==> #[trigger] v.sgpr[i] == if i == 4 {
            (kernarg_addr % 4294967296) as u32
        } else if i == 5 {
            (kernarg_addr / 4294967296) as u32
        } else {
            0u32
        }
    &&& v.vgpr.len() == lanes_spec(ws)
    &&& forall|l: int| 0 <= l < lanes_spec(ws) ==> (#[trigger] v.vgpr[l]).len() == VGPR_PER_LANE
    &&& forall|l: int, r: int|
        0 <= l < lanes_spec(ws) && 0 <= r < VGPR_PER_LANE ==> #[trigger] v.vgpr[l][r] == if r == 0 && lane_in_grid(
            ws,
            base,
            grid_x,
            l,
        ) {
            (base + l) as u32
        } else {
            0u32
        }
    &&& forall|j: u64| j < 64 ==> ((#[trigger] ((v.exec_mask >> j) & 1u64) == 1u64) <==> lane_in_grid(ws, base, grid_x, j as int))
}

/// One wave, started at global id `base`, runs `code` to `s_endpgm` and
/// takes memory `m0` to `m1`.
pub open spec fn wave_run<M: IsaMemory>(
    code: Seq<u8>,
    ws: WaveSize,
    kernarg_addr: u64,
    grid_x: int,
    base: int,
    m0: M,
    m1: M,
) -> bool {
    exists|v0: MachineView, n: nat, v1: MachineView|
        wave_start(v0, ws, kernarg_addr, base, grid_x) && #[trigger] steps_rel(code, v0, m0, n, v1, m1) && v1.halted
}

/// Waves of a 1-D launch over `grid_x` work-items.
pub open spec fn wave_total(ws: WaveSize, grid_x: int) -> int {
    (grid_x + lanes_spec(ws) - 1) / (lanes_spec(ws) as int)
}

/// `ms` are the memories a 1-D launch passes through: wave `k` starts at
/// global id `k * lanes` and takes `ms[k]` to `ms[k + 1]`.
pub open spec fn launch_trace<M: IsaMemory>(code: Seq<u8>, ws: WaveSize, kernarg_addr: u64, grid_x: int, ms: Seq<M>) -> bool {
    &&& ms.len() == wave_total(ws, grid_x) + 1
    &&& forall|k: int, k1: int|
        #![trigger ms[k], ms[k1]]
        0 <= k && k1 == k + 1 && k1 < ms.len() ==> wave_run(
            code,
            ws,
            kernarg_addr,
            grid_x,
            k * lanes_spec(ws),
            ms[k],
            ms[k1],
        )
}

/// A 1-D launch of `code` takes memory `m0` to `m`.
pub open spec fn launch_rel<M: IsaMemory>(code: Seq<u8>, ws: WaveSize, kernarg_addr: u64, grid_x: int, m0: M, m: M) -> bool {
    exists|ms: Seq<M>|
        #[trigger] launch_trace(code, ws, kernarg_addr, grid_x, ms) && ms[0] == m0 && ms.last() == m
}

/// Setting bit `l` of `e` sets exactly that bit.
proof fn lemma_set_bit(e: u64, l: u64, j: u64)
    requires
        l < 64,
        j < 64,
    ensures
        (((e | (1u64 << l)) >> j) & 1u64 == 1u64) <==> (((e >> j) & 1u64 == 1u64) || j == l),
{
    assert((((e | (1u64 << l)) >> j) & 1u64 == 1u64) <==> (((e >> j) & 1u64 == 1u64) || j == l)) by (bit_vector)
        requires
            l < 64,
            j < 64,
    ;
}

/// No bit of zero is set.
proof fn lemma_zero_bits(j: u64)
    ensures
        ((0u64 >> j) & 1u64) != 1u64,
{
    assert(((0u64 >> j) & 1u64) != 1u64) by (bit_vector);
}

/// Launch `code` over `grid_x` work-items in waves of `wave_size` lanes;
/// the total number of steps executed.
pub fn run_code_1d<M: IsaMemory>(code: &[u8], mem: &mut M, kernarg_addr: u64, grid_x: u32, wave_size: WaveSize) -> (r:
    Result<u64, IsaError>)
    ensures
        code@.len() == 0 ==> (r matches Err(e) && e.kind == IsaErrorKind::Config) && *final(mem) == *old(mem),
        code@.len() > 0 && grid_x == 0 ==> r == Ok::<u64, IsaError>(0),
        r matches Ok(n) ==> (grid_x > 0 ==> n > 0),
        r is Ok ==> launch_rel(code@, wave_size, kernarg_addr, grid_x as int, *old(mem), *final(mem)),
{
    if code.len() == 0 {
        return Err(IsaError::new(IsaErrorKind::Config, "empty kernel code"));
    }
    let lanes = wave_size.lanes() as u32;
    let mut total: u64 = 0;
    let mut base: u32 = 0;
    let ghost mut k: int = 0;
    let ghost mut ms: Seq<M> = seq![*mem];
    while base < grid_x
        invariant
            code@.len() > 0,
            lanes == lanes_spec(wave_size),
            base > 0 ==> total > 0,
            base == 0 ==> total == 0,
            grid_x == 0 ==> base == 0,
            k >= 0,
            ms.len() == k + 1,
            ms[0] == *old(mem),
            ms[k] == *mem,
            base < grid_x ==> base == k * lanes,
            base >= grid_x ==> k * lanes >= grid_x,
            k == 0 || (k - 1) * lanes < grid_x,
            k == 0 ==> base == 0,
            forall|j: int, j1: int|
                #![trigger ms[j], ms[j1]]
                0 <= j && j1 == j + 1 && j1 < ms.len() ==> wave_run(
                    code@,
                    wave_size,
                    kernarg_addr,
                    grid_x as int,
                    j * lanes_spec(wave_size),
                    ms[j],
                    ms[j1],
                ),
        decreases u32::MAX - base,
    {
        let mut st = MachineState::new(Arch::Gfx1201, wave_size);
        st.write_sgpr_pair(4, kernarg_addr, 0)?;
        let mut exec: u64 = 0;
        let mut lane: u32 = 0;
        proof {
            assert forall|j: u64| j < 64 implies ((#[trigger] ((exec >> j) & 1u64) == 1u64) <==> (j < lane
                && lane_in_grid(wave_size, base as int, grid_x as int, j as int))) by {
                lemma_zero_bits(j);
            }
        }
        while lane < lanes
            invariant
                st.wf(),
                st.wave_size == wave_size,
                !st.halted,
                lanes == lanes_spec(wave_size),
                lane <= lanes,
                base < grid_x,
                lane > 0 ==> exec != 0,
                st.pc == 0,
                !st.scc,
                st.vcc == 0,
                forall|i: int|
                    0 <= i < SGPR_COUNT ==> #[trigger] st.view().sgpr[i] == if i == 4 {
                        (kernarg_addr % 4294967296) as u32
                    } else if i == 5 {
                        (kernarg_addr / 4294967296) as u32
                    } else {
                        0u32
                    },
                forall|l: int, r: int|
                    0 <= l < lanes_spec(wave_size) && 0 <= r < VGPR_PER_LANE ==> #[trigger] st.view().vgpr[l][r]
                        == if r == 0 && l < lane && lane_in_grid(wave_size, base as int, grid_x as int, l) {
                        (base + l) as u32
                    } else {
                        0u32
                    },
                forall|j: u64|
                    j < 64 ==> ((#[trigger] ((exec >> j) & 1u64) == 1u64) <==> (j < lane && lane_in_grid(
                        wave_size,
                        base as int,
                        grid_x as int,
                        j as int,
                    ))),
            decreases lanes - lane,
        {
            let gid: u64 = base as u64 + lane as u64;
            assert(lane == 0 ==> gid < grid_x);
            if gid < grid_x as u64 {
                let ghost v_before = st.view();
                set_lane_reg(&mut st, lane as usize, 0, gid as u32);
                proof {
                    assert forall|l: int, r: int|
                        0 <= l < lanes_spec(wave_size) && 0 <= r < VGPR_PER_LANE implies #[trigger] st.view().vgpr[l][r]
                        == if r == 0 && l < lane + 1 && lane_in_grid(wave_size, base as int, grid_x as int, l) {
                        (base + l) as u32
                    } else {
                        0u32
                    } by {
                        if l != lane {
                            assert(st.view().vgpr[l] == v_before.vgpr[l]);
                        }
                    }
                    assert forall|i: int| 0 <= i < SGPR_COUNT implies #[trigger] st.view().sgpr[i] == v_before.sgpr[i] by {}
                }
                let bit: u64 = 1u64 << (lane as u64);
                assert(lane < 64 ==> (1u64 << (lane as u64)) != 0) by (bit_vector);
                assert(bit != 0 ==> (exec | bit) != 0) by (bit_vector);
                let ghost e0 = exec;
                exec = exec | bit;
                proof {
                    assert forall|j: u64| j < 64 implies ((#[trigger] ((exec >> j) & 1u64) == 1u64) <==> (j < lane + 1
                        && lane_in_grid(wave_size, base as int, grid_x as int, j as int))) by {
                        lemma_set_bit(e0, lane as u64, j);
                        assert(((e0 >> j) & 1u64) == 1u64 <==> (j < lane && lane_in_grid(
                            wave_size,
                            base as int,
                            grid_x as int,
                            j as int,
                        )));
                    }
                }
            } else {
                proof {
                    assert forall|l: int, r: int|
                        0 <= l < lanes_spec(wave_size) && 0 <= r < VGPR_PER_LANE implies #[trigger] st.view().vgpr[l][r]
                        == if r == 0 && l < lane + 1 && lane_in_grid(wave_size, base as int, grid_x as int, l) {
                        (base + l) as u32
                    } else {
                        0u32
                    } by {}
                    assert forall|j: u64| j < 64 implies ((#[trigger] ((exec >> j) & 1u64) == 1u64) <==> (j < lane + 1
                        && lane_in_grid(wave_size, base as int, grid_x as int, j as int))) by {
                        assert(((exec >> j) & 1u64) == 1u64 <==> (j < lane && lane_in_grid(
                            wave_size,
                            base as int,
                            grid_x as int,
                            j as int,
                        )));
                    }
                }
            }
            lane = lane + 1;
        }
        let ghost v_loop = st.view();
        st.exec_mask = exec;
        let ghost v_start = st.view();
        assert(v_start.sgpr == v_loop.sgpr);
        assert(v_start.vgpr == v_loop.vgpr);
        let ghost m_start = *mem;
        proof {
            assert forall|j: u64| j < 64 implies ((#[trigger] ((v_start.exec_mask >> j) & 1u64) == 1u64)
                <==> lane_in_grid(wave_size, base as int, grid_x as int, j as int)) by {
                assert(((exec >> j) & 1u64) == 1u64 <==> (j < lane && lane_in_grid(
                    wave_size,
                    base as int,
                    grid_x as int,
                    j as int,
                )));
            }
            assert forall|l: int| 0 <= l < lanes_spec(wave_size) implies (#[trigger] v_start.vgpr[l]).len()
                == VGPR_PER_LANE by {
                assert(st.vgpr@[l]@.len() == VGPR_PER_LANE);
            }
            assert(v_start.sgpr.len() == SGPR_COUNT);
            assert(v_start.vgpr.len() == lanes_spec(wave_size));
            assert(v_start.wave_size == wave_size && v_start.pc == 0 && !v_start.halted && !v_start.scc && v_start.vcc
                == 0);
            assert(forall|i: int|
                0 <= i < SGPR_COUNT ==> #[trigger] v_start.sgpr[i] == if i == 4 {
                    (kernarg_addr % 4294967296) as u32
                } else if i == 5 {
                    (kernarg_addr / 4294967296) as u32
                } else {
                    0u32
                });
            assert(forall|l: int, r: int|
                0 <= l < lanes_spec(wave_size) && 0 <= r < VGPR_PER_LANE ==> #[trigger] v_start.vgpr[l][r] == if r == 0
                    && lane_in_grid(wave_size, base as int, grid_x as int, l) {
                    (base + l) as u32
                } else {
                    0u32
                });
            assert(wave_start(v_start, wave_size, kernarg_addr, base as int, grid_x as int));
        }
        let steps = run(&mut st, code, mem, 10_000)?;
        if !st.halted {
            return Err(IsaError::new(IsaErrorKind::Validation, "kernel wave finished without s_endpgm"));
        }
        proof {
            assert(steps_rel(code@, v_start, m_start, steps as nat, st.view(), *mem));
            assert(wave_run(code@, wave_size, kernarg_addr, grid_x as int, k * lanes_spec(wave_size), m_start, *mem));
            let ms1 = ms.push(*mem);
            assert forall|j: int, j1: int| 0 <= j && j1 == j + 1 && j1 < ms1.len() implies #[trigger] wave_run(
                code@,
                wave_size,
                kernarg_addr,
                grid_x as int,
                j * lanes_spec(wave_size),
                ms1[j],
                ms1[j1],
            ) by {
                if j1 < ms.len() {
                    assert(ms1[j] == ms[j] && ms1[j1] == ms[j1]);
                    assert(wave_run(
                        code@,
                        wave_size,
                        kernarg_addr,
                        grid_x as int,
                        j * lanes_spec(wave_size),
                        ms[j],
                        ms[j1],
                    ));
                }
            }
            ms = ms1;
            k = k + 1;
        }
        total = if total > u64::MAX - steps { u64::MAX } else { total + steps };
        assert(lanes >= 32);
        let old_base = base;
        base = if base as u64 + lanes as u64 > u32::MAX as u64 { u32::MAX } else { base + lanes };
        assert(base > old_base);
        assert(k * lanes == (k - 1) * lanes + lanes) by (nonlinear_arith);
    }
    proof {
        lemma_wave_total(grid_x as int, lanes as int, k);
        assert(launch_trace(code@, wave_size, kernarg_addr, grid_x as int, ms));
    }
    Ok(total)
}

/// The number of waves a loop over `k` waves of `lanes` lanes reaches.
proof fn lemma_wave_total(grid_x: int, lanes: int, k: int)
    requires
        lanes >= 1,
        grid_x >= 0,
        k >= 0,
        k * lanes >= grid_x,
        k == 0 || (k - 1) * lanes < grid_x,
    ensures
        k == (grid_x + lanes - 1) / lanes,
{
    if k == 0 {
        assert(grid_x == 0);
        assert((lanes - 1) / lanes == 0) by (nonlinear_arith)
            requires
                lanes >= 1,
        ;
    } else {
        assert(grid_x + lanes - 1 >= k * lanes) by (nonlinear_arith)
            requires
                k * lanes >= grid_x,
                (k - 1) * lanes < grid_x,
                lanes >= 1,
        {
            assert((k - 1) * lanes == k * lanes - lanes) by (nonlinear_arith);
        }
        assert(grid_x + lanes - 1 < (k + 1) * lanes) by (nonlinear_arith)
            requires
                k * lanes >= grid_x,
                lanes >= 1,
        {
            assert((k + 1) * lanes == k * lanes + lanes) by (nonlinear_arith);
        }
        vstd::arithmetic::div_mod::lemma_fundamental_div_mod(grid_x + lanes - 1, lanes);
        let q = (grid_x + lanes - 1) / lanes;
        let r = (grid_x + lanes - 1) % lanes;
        assert(q == k) by (nonlinear_arith)
            requires
                grid_x + lanes - 1 == lanes * q + r,
                0 <= r < lanes,
                k * lanes <= grid_x + lanes - 1,
                grid_x + lanes - 1 < (k + 1) * lanes,
                lanes >= 1,
        ;
    }
}

/// `.text` of `clamp64` (`b[i] = min(a[i], 64)` on u32): the `tiny_add`
/// sequence with `v_min_u32 v2, 64, v2` in place of the add.
pub open spec fn clamp64_text_spec() -> Seq<u8> {
    seq![
        0x02u8, 0x20, 0x00, 0xf4, 0x00, 0x00, 0x00, 0xf8, 0x82, 0x20, 0x00, 0xf4, 0x08, 0x00, 0x00, 0xf8,
        0x00, 0x00, 0x89, 0xbf, 0x82, 0x00, 0x02, 0x30, 0x00, 0x00, 0x05, 0xee, 0x02, 0x00, 0x00, 0x00,
        0x01, 0x00, 0x00, 0x00, 0x00, 0x00, 0x89, 0xbf, 0xc0, 0x04, 0x04, 0x26, 0x02, 0x80, 0x06, 0xee,
        0x00, 0x00, 0x00, 0x01, 0x01, 0x00, 0x00, 0x00, 0x00, 0x00, 0xb0, 0xbf,
    ]
}

/// The `clamp64` kernel text.
pub fn clamp64_text() -> (r: Vec<u8>)
    ensures
        r@ == clamp64_text_spec(),
{
    let r: Vec<u8> = vec![
        0x02u8, 0x20, 0x00, 0xf4, 0x00, 0x00, 0x00, 0xf8, 0x82, 0x20, 0x00, 0xf4, 0x08, 0x00, 0x00, 0xf8,
        0x00, 0x00, 0x89, 0xbf, 0x82, 0x00, 0x02, 0x30, 0x00, 0x00, 0x05, 0xee, 0x02, 0x00, 0x00, 0x00,
        0x01, 0x00, 0x00, 0x00, 0x00, 0x00, 0x89, 0xbf, 0xc0, 0x04, 0x04, 0x26, 0x02, 0x80, 0x06, 0xee,
        0x00, 0x00, 0x00, 0x01, 0x01, 0x00, 0x00, 0x00, 0x00, 0x00, 0xb0, 0xbf,
    ];
    assert(r@ =~= clamp64_text_spec());
    r
}

/// Run `clamp64` over `grid_x` work-items, a wave at a time.
pub fn run_clamp64_1d<M: IsaMemory>(mem: &mut M, kernarg_addr: u64, grid_x: u32, wave_size: WaveSize) -> (r: Result<
    u64,
    IsaError,
>)
    ensures
        grid_x == 0 ==> r == Ok::<u64, IsaError>(0),
        r matches Ok(n) ==> (grid_x > 0 ==> n > 0),
        r is Ok ==> launch_rel(clamp64_text_spec(), wave_size, kernarg_addr, grid_x as int, *old(mem), *final(mem)),
{
    let code = clamp64_text();
    run_code_1d(code.as_slice(), mem, kernarg_addr, grid_x, wave_size)
}

/// Host reference for `clamp64`: `b[i] = min(a[i], 64)`.
pub fn clamp64_host_ref(a: &[u32], b: &mut [u32])
    requires
        a@.len() == old(b)@.len(),
    ensures
        final(b)@.len() == a@.len(),
        forall|i: int| 0 <= i < a@.len() ==> final(b)@[i] == if a@[i] <= 64 { a@[i] } else { 64 },
{
    let n = a.len();
    let mut i: usize = 0;
    while i < n
        invariant
            n == a@.len(),
            b@.len() == n,
            i <= n,
            forall|k: int| 0 <= k < i ==> b@[k] == if a@[k] <= 64 { a@[k] } else { 64 },
        decreases n - i,
    {
        b[i] = if a[i] <= 64 { a[i] } else { 64 };
        i = i + 1;
    }
}

/// `.text` of `select_gt50` (`b[i] = a[i] > 50 ? a[i] : 0` on u32): the
/// `tiny_add` sequence with `v_cmp_lt_u32 vcc_lo, 50, v2` and
/// `v_cndmask_b32 v2, 0, v2` in place of the add.
pub open spec fn select_gt50_text_spec() -> Seq<u8> {
    seq![
        0x02u8, 0x20, 0x00, 0xf4, 0x00, 0x00, 0x00, 0xf8, 0x82, 0x20, 0x00, 0xf4, 0x08, 0x00, 0x00, 0xf8,
        0x00, 0x00, 0x89, 0xbf, 0x82, 0x00, 0x02, 0x30, 0x00, 0x00, 0x05, 0xee, 0x02, 0x00, 0x00, 0x00,
        0x01, 0x00, 0x00, 0x00, 0x00, 0x00, 0x89, 0xbf, 0xb2, 0x04, 0x92, 0x7c, 0x80, 0x04, 0x04, 0x02,
        0x02, 0x80, 0x06, 0xee, 0x00, 0x00, 0x00, 0x01, 0x01, 0x00, 0x00, 0x00, 0x00, 0x00, 0xb0, 0xbf,
    ]
}

/// The `select_gt50` kernel text.
pub fn select_gt50_text() -> (r: Vec<u8>)
    ensures
        r@ == select_gt50_text_spec(),
{
    let r: Vec<u8> = vec![
        0x02u8, 0x20, 0x00, 0xf4, 0x00, 0x00, 0x00, 0xf8, 0x82, 0x20, 0x00, 0xf4, 0x08, 0x00, 0x00, 0xf8,
        0x00, 0x00, 0x89, 0xbf, 0x82, 0x00, 0x02, 0x30, 0x00, 0x00, 0x05, 0xee, 0x02, 0x00, 0x00, 0x00,
        0x01, 0x00, 0x00, 0x00, 0x00, 0x00, 0x89, 0xbf, 0xb2, 0x04, 0x92, 0x7c, 0x80, 0x04, 0x04, 0x02,
        0x02, 0x80, 0x06, 0xee, 0x00, 0x00, 0x00, 0x01, 0x01, 0x00, 0x00, 0x00, 0x00, 0x00, 0xb0, 0xbf,
    ];
    assert(r@ =~= select_gt50_text_spec());
    r
}

/// Run `select_gt50` over `grid_x` work-items, a wave at a time.
pub fn run_select_gt50_1d<M: IsaMemory>(mem: &mut M, kernarg_addr: u64, grid_x: u32, wave_size: WaveSize) -> (r:
    Result<u64, IsaError>)
    ensures
        grid_x == 0 ==> r == Ok::<u64, IsaError>(0),
        r matches Ok(n) ==> (grid_x > 0 ==> n > 0),
        r is Ok ==> launch_rel(select_gt50_text_spec(), wave_size, kernarg_addr, grid_x as int, *old(mem), *final(mem)),
{
    let code = select_gt50_text();
    run_code_1d(code.as_slice(), mem, kernarg_addr, grid_x, wave_size)
}

/// Host reference for `select_gt50`: `b[i] = a[i]` where `a[i] > 50`, else 0.
pub fn select_gt50_host_ref(a: &[u32], b: &mut [u32])
    requires
        a@.len() == old(b)@.len(),
    ensures
        final(b)@.len() == a@.len(),
        forall|i: int| 0 <= i < a@.len() ==> final(b)@[i] == if a@[i] > 50 { a@[i] } else { 0 },
{
    let n = a.len();
    let mut i: usize = 0;
    while i < n
        invariant
            n == a@.len(),
            b@.len() == n,
            i <= n,
            forall|k: int| 0 <= k < i ==> b@[k] == if a@[k] > 50 { a@[k] } else { 0 },
        decreases n - i,
    {
        b[i] = if a[i] > 50 { a[i] } else { 0 };
        i = i + 1;
    }
}

/// `a[i] + 1` wrapping at 32 bits.
pub open spec fn plus_one_wrapping(x: i32) -> i32 {
    if x == i32::MAX {
        i32::MIN
    } else {
        (x + 1) as i32
    }
}

/// Host reference for `tiny_add`: `b[i] = a[i] + 1` (wrapping).
pub fn tiny_add_host_ref(a: &[i32], b: &mut [i32])
    requires
        a@.len() == old(b)@.len(),
    ensures
        final(b)@.len() == a@.len(),
        forall|i: int| 0 <= i < a@.len() ==> final(b)@[i] == plus_one_wrapping(a@[i]),
{
    let n = a.len();
    let mut i: usize = 0;
    while i < n
        invariant
            n == a@.len(),
            b@.len() == n,
            i <= n,
            forall|k: int| 0 <= k < i ==> b@[k] == plus_one_wrapping(a@[k]),
        decreases n - i,
    {
        b[i] = if a[i] == i32::MAX { i32::MIN } else { a[i] + 1 };
        i = i + 1;
    }
}

} // verus!
