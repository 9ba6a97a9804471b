use softgpu::functional::debug::{
    explore_and_minimize_race, inspect_sanitizer_finding, run_debug, validate_trace_header, Breakpoint,
    NoopObserver, StateSnapshot, TraceEvent, DEBUG_TRACE_SCHEMA, DEFAULT_TRACE_EVENT_BUDGET,
};
use softgpu::functional::error::FunctionalError;
use softgpu::functional::exec::{
    run, run_with_budget, run_with_config, run_with_config_sanitized, run_with_observer, run_with_sanitizer,
    ExecConfig, LaunchConfig, SchedulePolicy, DEFAULT_WAVE_SIZE, FUNCTIONAL_MODE_MARKER, MAX_GROUP_BYTES,
};
use softgpu::functional::ir::{barrier_segments, AddrSpace, Op, Program, TypeId, SFIR_SCHEMA};
use softgpu::functional::kernels::{
    atomic_inc_reduce, cross_workgroup_store_zero, group_exchange, group_exchange_missing_barrier,
    infinite_loop_watchdog, kernarg_one_ptr, kernarg_two_ptrs, oob_store_past_end, predicated_inc,
    race_all_store_global_zero, tiny_add, tiny_copy, tiny_index, uninit_group_read, wave_lane_ids,
};
use softgpu::functional::memory::{kernarg_load, GlobalArena};
use softgpu::functional::regs::Registers;
use softgpu::functional::sanitize::{
    FindingKind, ReplayBundle, SanitizeMode, Sanitizer, WorkItemId, MAX_SHADOW_BYTES, SANITIZER_REPLAY_SCHEMA,
};
use std::collections::BTreeSet;

fn base_program(name: &str, body: Vec<Op>) -> Program {
    Program {
        schema: SFIR_SCHEMA.into(),
        fidelity: "functional".into(),
        note: "not_gfx1201_isa_emulation".into(),
        name: name.into(),
        source_provenance: "softgpu-test-fake".into(),
        kernarg_layout: vec![],
        group_bytes: 0,
        body,
    }
}

fn launch_1x1() -> LaunchConfig {
    LaunchConfig { grid: [1, 1, 1], workgroup: [1, 1, 1] }
}

fn launch_1d(n: u32, wg: u32) -> LaunchConfig {
    LaunchConfig { grid: [n, 1, 1], workgroup: [wg, 1, 1] }
}

fn cfg_sanitize(launch: LaunchConfig, mode: SanitizeMode) -> ExecConfig {
    let mut cfg = ExecConfig::from_launch(launch);
    cfg.sanitize = mode;
    cfg
}

#[test]
fn fake_sfir_ids_sub_mul_typed_stores() {
    let prog = base_program(
        "fake_ids_arith",
        vec![
            Op::LocalId { dst: "lx".into(), dim: 0 },
            Op::WorkgroupId { dst: "wx".into(), dim: 0 },
            Op::GlobalId { dst: "gy".into(), dim: 1 },
            Op::Const { dst: "c2".into(), ty: TypeId::U32, value: 2 },
            Op::Const { dst: "c3".into(), ty: TypeId::U64, value: 3 },
            Op::Sub { dst: "s".into(), lhs: "c3".into(), rhs: "c2".into(), ty: TypeId::U64 },
            Op::Mul { dst: "m".into(), lhs: "s".into(), rhs: "c2".into(), ty: TypeId::U32 },
            Op::Const { dst: "base".into(), ty: TypeId::U64, value: 0 },
            Op::StoreGlobal { addr: "base".into(), src: "m".into(), ty: TypeId::U32 },
            Op::Const { dst: "base8".into(), ty: TypeId::U64, value: 8 },
            Op::StoreGlobal { addr: "base8".into(), src: "s".into(), ty: TypeId::U64 },
            Op::Ret,
        ],
    );
    let mut arena = GlobalArena::new(16);
    let report = run(&prog, launch_1x1(), &mut arena, &[]).unwrap();
    assert_eq!(report.workitems_executed, 1);
    assert_eq!(arena.load(0, TypeId::U32).unwrap(), 2);
    assert_eq!(arena.load(8, TypeId::U64).unwrap(), 1);
}

#[test]
fn fake_sfir_undefined_reg_and_step_budget_fail_closed() {
    let bad = base_program(
        "fake_undef",
        vec![
            Op::Add { dst: "x".into(), lhs: "missing".into(), rhs: "missing".into(), ty: TypeId::I32 },
            Op::Ret,
        ],
    );
    let mut arena = GlobalArena::new(4);
    assert!(matches!(run(&bad, launch_1x1(), &mut arena, &[]), Err(FunctionalError::UndefinedReg { .. })));

    let tiny = base_program("fake_budget", vec![Op::Const { dst: "z".into(), ty: TypeId::I32, value: 0 }, Op::Ret]);
    assert!(matches!(
        run_with_budget(&tiny, launch_1x1(), &mut arena, &[], 0),
        Err(FunctionalError::StepBudgetExceeded { .. })
    ));
}

#[test]
fn arena_typed_load_store_and_bounds_fail_closed() {
    let mut arena = GlobalArena::new(16);
    arena.fill_i32_ramp(10);
    assert_eq!(arena.read_i32_slice().unwrap()[0], 10);

    arena.store(0, TypeId::U32, 0xffff_ffffu32 as i64).unwrap();
    assert_eq!(arena.load(0, TypeId::U32).unwrap() as u32, 0xffff_ffff);
    arena.store(0, TypeId::U64, -1).unwrap();
    assert_eq!(arena.load(0, TypeId::U64).unwrap(), -1);

    assert!(matches!(arena.load(100, TypeId::I32), Err(FunctionalError::Bounds { .. })));
    assert!(matches!(arena.store(14, TypeId::I32, 1), Err(FunctionalError::Bounds { .. })));
    assert!(matches!(GlobalArena::from_bytes(vec![1, 2, 3]).read_i32_slice(), Err(FunctionalError::Validation { .. })));

    let kern = 7u64.to_le_bytes();
    assert_eq!(kernarg_load(&kern, 0, TypeId::U64).unwrap(), 7);
    assert!(matches!(kernarg_load(&kern, 4, TypeId::U64), Err(FunctionalError::Bounds { .. })));
}

#[test]
fn validate_rejects_bad_honesty_fields_and_dims() {
    let mut p = base_program("x", vec![Op::Ret]);
    p.fidelity = "abi".into();
    assert!(p.validate().is_err());
    p.fidelity = "functional".into();
    p.note = "wrong".into();
    assert!(p.validate().is_err());
    p.note = "not_gfx1201_isa_emulation".into();
    p.body = vec![Op::LocalId { dst: "g".into(), dim: 9 }, Op::Ret];
    assert!(p.validate().is_err());
}

#[test]
fn launch_rejects_zero_and_oversize_dims() {
    assert!(LaunchConfig { grid: [0, 1, 1], workgroup: [1, 1, 1] }.validate().is_err());
    assert!(LaunchConfig { grid: [2048, 1, 1], workgroup: [2048, 1, 1] }.validate().is_err());
    let ok = LaunchConfig { grid: [8, 4, 2], workgroup: [2, 2, 1] };
    ok.validate().unwrap();
    assert_eq!(ok.num_workgroups(), [4, 2, 2]);
}

#[test]
fn phase6_functional_tiny_add_matches_host_reference() {
    let n = 256u32;
    let mut arena = GlobalArena::new((n as usize) * 4 * 2);
    for i in 0..n {
        arena.store(u64::from(i) * 4, TypeId::I32, i64::from(i as i32)).unwrap();
    }
    let kernarg = kernarg_two_ptrs(0, u64::from(n) * 4);
    let report = run(&tiny_add(), launch_1d(n, 64), &mut arena, &kernarg).unwrap();
    assert_eq!(report.fidelity, "functional");
    assert_eq!(report.mode, FUNCTIONAL_MODE_MARKER);
    assert_eq!(report.workitems_executed, u64::from(n));
    for i in 0..n {
        let v = arena.load(u64::from(n) * 4 + u64::from(i) * 4, TypeId::I32).unwrap();
        assert_eq!(v, i64::from(i as i32) + 1);
    }
}

#[test]
fn tiny_copy_and_index() {
    let n = 128u32;
    let mut arena = GlobalArena::new((n as usize) * 4 * 2);
    for i in 0..n {
        arena.store(u64::from(i) * 4, TypeId::I32, 1000 + i64::from(i as i32)).unwrap();
    }
    let k = kernarg_two_ptrs(0, u64::from(n) * 4);
    run(&tiny_copy(), launch_1d(n, 32), &mut arena, &k).unwrap();
    for i in 0..n {
        let v = arena.load(u64::from(n) * 4 + u64::from(i) * 4, TypeId::I32).unwrap();
        assert_eq!(v, 1000 + i64::from(i as i32));
    }

    let mut out = GlobalArena::new((n as usize) * 4);
    let k1 = kernarg_one_ptr(0);
    run(&tiny_index(), launch_1d(n, 16), &mut out, &k1).unwrap();
    for i in 0..n {
        assert_eq!(out.load(u64::from(i) * 4, TypeId::I32).unwrap(), i64::from(i));
    }
}

#[test]
fn multi_workgroup_and_deterministic_rerun() {
    let n = 192u32;
    let mut a = GlobalArena::new((n as usize) * 4 * 2);
    for i in 0..n {
        a.store(u64::from(i) * 4, TypeId::I32, i64::from(i as i32) * 2).unwrap();
    }
    let k = kernarg_two_ptrs(0, u64::from(n) * 4);
    let r1 = run(&tiny_add(), launch_1d(n, 64), &mut a, &k).unwrap();
    let snap = a.as_slice().to_vec();

    let mut b = GlobalArena::from_bytes({
        let mut v = vec![0u8; (n as usize) * 4 * 2];
        for i in 0..n {
            let off = (i as usize) * 4;
            v[off..off + 4].copy_from_slice(&(i as i32 * 2).to_le_bytes());
        }
        v
    });
    let r2 = run(&tiny_add(), launch_1d(n, 64), &mut b, &k).unwrap();
    assert_eq!(r1.steps, r2.steps);
    assert_eq!(snap, b.as_slice());
}

#[test]
fn bounds_failure_on_oob_store() {
    let mut arena = GlobalArena::new(4);
    let k = kernarg_two_ptrs(0, 0);
    let err = run(&tiny_add(), launch_1d(2, 1), &mut arena, &k).unwrap_err();
    assert!(matches!(err, FunctionalError::Bounds { .. }));
}

#[test]
fn launch_validation_rejects_bad_dims() {
    let err = LaunchConfig { grid: [10, 1, 1], workgroup: [3, 1, 1] }.validate().unwrap_err();
    assert!(matches!(err, FunctionalError::Validation { .. }));
}

#[test]
fn host_reference_differential_for_tiny_add() {
    let n = 64usize;
    let a: Vec<i32> = (0..n as i32).collect();
    let mut b = vec![0i32; n];
    for i in 0..n {
        b[i] = a[i] + 1;
    }
    let mut arena = GlobalArena::new(n * 4 * 2);
    for (i, v) in a.iter().enumerate() {
        arena.store((i * 4) as u64, TypeId::I32, i64::from(*v)).unwrap();
    }
    let k = kernarg_two_ptrs(0, (n * 4) as u64);
    run(&tiny_add(), launch_1d(n as u32, 32), &mut arena, &k).unwrap();
    for (i, expected) in b.iter().enumerate() {
        let got = arena.load(((n + i) * 4) as u64, TypeId::I32).unwrap();
        assert_eq!(got, i64::from(*expected));
    }
}

#[test]
fn program_is_program() {
    let _: Program = tiny_add();
}

#[test]
fn wave_lane_indexing_and_partial_wave() {
    let n = 40u32;
    let wg = 40u32;
    let mut arena = GlobalArena::new((n as usize) * 4);
    let k = kernarg_one_ptr(0);
    let mut cfg = ExecConfig::from_launch(launch_1d(n, wg));
    cfg.schedule = SchedulePolicy::WaveBarrier;
    cfg.wave_size = DEFAULT_WAVE_SIZE;
    let report = run_with_config(&wave_lane_ids(), cfg, &mut arena, &k).unwrap();
    assert_eq!(report.mode, FUNCTIONAL_MODE_MARKER);
    assert_eq!(report.wave_size, 32);
    for i in 0..n {
        let v = arena.load(u64::from(i) * 4, TypeId::I32).unwrap() as u32;
        let wave = i / 32;
        let lane = i % 32;
        assert_eq!(v, wave * 1000 + lane, "i={i}");
    }
}

#[test]
fn predicated_divergence_even_lanes_only() {
    let n = 32u32;
    let mut arena = GlobalArena::new((n as usize) * 4);
    for i in 0..n {
        arena.store(u64::from(i) * 4, TypeId::I32, 10).unwrap();
    }
    let k = kernarg_one_ptr(0);
    let mut cfg = ExecConfig::from_launch(launch_1d(n, n));
    cfg.schedule = SchedulePolicy::WaveBarrier;
    run_with_config(&predicated_inc(), cfg, &mut arena, &k).unwrap();
    for i in 0..n {
        let v = arena.load(u64::from(i) * 4, TypeId::I32).unwrap();
        let expect = if i % 2 == 0 { 11 } else { 10 };
        assert_eq!(v, expect, "i={i}");
    }
}

#[test]
fn group_memory_exchange_barrier_and_schedule_metamorphism() {
    let wg = 16u32;
    let n = wg;
    let prog = group_exchange(wg);
    let mut a = GlobalArena::new((n as usize) * 4);
    let k = kernarg_one_ptr(0);
    let mut cfg = ExecConfig::from_launch(launch_1d(n, wg));
    cfg.schedule = SchedulePolicy::WaveBarrier;
    cfg.wave_size = 8;
    let r1 = run_with_config(&prog, cfg, &mut a, &k).unwrap();
    assert_eq!(r1.barrier_generations, 1);
    for i in 0..n {
        let expect = ((i + 1) % wg) as i64;
        assert_eq!(a.load(u64::from(i) * 4, TypeId::I32).unwrap(), expect, "i={i}");
    }

    let mut b = GlobalArena::new((n as usize) * 4);
    let mut cfg2 = cfg;
    cfg2.wave_size = 16;
    run_with_config(&prog, cfg2, &mut b, &k).unwrap();
    assert_eq!(a.as_slice(), b.as_slice());
}

#[test]
fn atomic_reduction_permutation_is_complete() {
    let n = 64u32;
    let mut arena = GlobalArena::new(4 + (n as usize) * 4);
    arena.store(0, TypeId::I32, 0).unwrap();
    let k = kernarg_two_ptrs(0, 4);
    let mut cfg = ExecConfig::from_launch(launch_1d(n, 32));
    cfg.schedule = SchedulePolicy::WaveBarrier;
    let report = run_with_config(&atomic_inc_reduce(), cfg, &mut arena, &k).unwrap();
    assert_eq!(report.atomics_executed, u64::from(n));
    assert_eq!(arena.load(0, TypeId::I32).unwrap(), i64::from(n));
    let mut seen = BTreeSet::new();
    for i in 0..n {
        let old = arena.load(4 + u64::from(i) * 4, TypeId::I32).unwrap() as u32;
        assert!(old < n);
        assert!(seen.insert(old), "duplicate old={old}");
    }
    assert_eq!(seen.len(), n as usize);
}

#[test]
fn infinite_loop_watchdog_trips_step_budget() {
    let err =
        run_with_budget(&infinite_loop_watchdog(), launch_1d(1, 1), &mut GlobalArena::new(0), &[], 64).unwrap_err();
    assert!(matches!(err, FunctionalError::StepBudgetExceeded { .. }));
}

#[test]
fn resource_limit_rejects_oversize_group_before_exec() {
    let mut prog = group_exchange(8);
    prog.group_bytes = MAX_GROUP_BYTES + 1;
    let err = run(&prog, launch_1d(8, 8), &mut GlobalArena::new(32), &kernarg_one_ptr(0)).unwrap_err();
    assert!(matches!(err, FunctionalError::Validation { .. }));
}

#[test]
fn barrier_program_rejects_lex_schedule() {
    let prog = group_exchange(8);
    let mut cfg = ExecConfig::from_launch(launch_1d(8, 8));
    cfg.schedule = SchedulePolicy::LexWorkitem;
    let err = run_with_config(&prog, cfg, &mut GlobalArena::new(32), &kernarg_one_ptr(0)).unwrap_err();
    assert!(matches!(err, FunctionalError::Validation { .. }));
}

#[test]
fn positive_tiny_add_and_group_exchange_clean() {
    let n = 64u32;
    let mut arena = GlobalArena::new((n as usize) * 8);
    arena.fill_i32_ramp(0);
    let k = kernarg_two_ptrs(0, (n as u64) * 4);
    let cfg = cfg_sanitize(launch_1d(n, 32), SanitizeMode::Collect);
    let (_r, san) = run_with_config_sanitized(&tiny_add(), cfg, &mut arena, &k).unwrap();
    assert!(san.ok(), "{:?}", san.findings);

    let wg = 16u32;
    let prog = group_exchange(wg);
    let mut a = GlobalArena::new((wg as usize) * 4);
    let k = kernarg_one_ptr(0);
    let mut cfg = cfg_sanitize(launch_1d(wg, wg), SanitizeMode::Collect);
    cfg.schedule = SchedulePolicy::WaveBarrier;
    cfg.wave_size = 8;
    let (_r, san) = run_with_config_sanitized(&prog, cfg, &mut a, &k).unwrap();
    assert!(san.ok(), "{:?}", san.findings);
}

#[test]
fn positive_atomics_do_not_race_under_softgpu_subset() {
    let n = 32u32;
    let mut arena = GlobalArena::new(4 + (n as usize) * 4);
    arena.store(0, TypeId::I32, 0).unwrap();
    let k = kernarg_two_ptrs(0, 4);
    let mut cfg = cfg_sanitize(launch_1d(n, n), SanitizeMode::Collect);
    cfg.schedule = SchedulePolicy::WaveBarrier;
    let (_r, san) = run_with_config_sanitized(&atomic_inc_reduce(), cfg, &mut arena, &k).unwrap();
    assert!(san.ok(), "{:?}", san.findings);
}

#[test]
fn negative_oob_fail_fast() {
    let n = 8u32;
    let mut arena = GlobalArena::new((n as usize) * 4);
    let k = kernarg_one_ptr(0);
    let cfg = cfg_sanitize(launch_1d(1, 1), SanitizeMode::FailFast);
    let err = run_with_config_sanitized(&oob_store_past_end(n), cfg, &mut arena, &k).unwrap_err();
    match err {
        FunctionalError::Sanitize(f) => assert_eq!(f.kind, FindingKind::OutOfBounds),
        other => panic!("expected Sanitize OOB, got {other:?}"),
    }
}

#[test]
fn negative_use_after_free() {
    let n = 4u32;
    let mut arena = GlobalArena::new((n as usize) * 4);
    let k = kernarg_one_ptr(0);
    let cfg = cfg_sanitize(launch_1d(n, n), SanitizeMode::FailFast);
    let mut san = Sanitizer::new(SanitizeMode::FailFast, arena.len(), 0).unwrap();
    san.mark_freed(AddrSpace::Global, 0, 4);
    let err = run_with_sanitizer(&tiny_index(), cfg, &mut arena, &k, san).unwrap_err();
    match err {
        FunctionalError::Sanitize(f) => assert_eq!(f.kind, FindingKind::UseAfterFree),
        other => panic!("expected UAF, got {other:?}"),
    }
}

#[test]
fn negative_uninitialized_group_read() {
    let mut arena = GlobalArena::new(4);
    let k = kernarg_one_ptr(0);
    let mut cfg = cfg_sanitize(launch_1d(1, 1), SanitizeMode::FailFast);
    cfg.schedule = SchedulePolicy::WaveBarrier;
    let err = run_with_config_sanitized(&uninit_group_read(), cfg, &mut arena, &k).unwrap_err();
    match err {
        FunctionalError::Sanitize(f) => assert_eq!(f.kind, FindingKind::UninitializedRead),
        other => panic!("expected uninit, got {other:?}"),
    }
}

#[test]
fn negative_global_race() {
    let mut arena = GlobalArena::new(4);
    let k = kernarg_one_ptr(0);
    let mut cfg = cfg_sanitize(launch_1d(8, 8), SanitizeMode::FailFast);
    cfg.schedule = SchedulePolicy::LexWorkitem;
    let err = run_with_config_sanitized(&race_all_store_global_zero(), cfg, &mut arena, &k).unwrap_err();
    match err {
        FunctionalError::Sanitize(f) => {
            assert_eq!(f.kind, FindingKind::Race);
            assert!(f.other.is_some());
        },
        other => panic!("expected Race, got {other:?}"),
    }
}

#[test]
fn negative_missing_barrier() {
    let wg = 8u32;
    let mut arena = GlobalArena::new((wg as usize) * 4);
    let k = kernarg_one_ptr(0);
    let mut cfg = cfg_sanitize(launch_1d(wg, wg), SanitizeMode::FailFast);
    cfg.schedule = SchedulePolicy::WaveBarrier;
    cfg.wave_size = wg;
    let err = run_with_config_sanitized(&group_exchange_missing_barrier(wg), cfg, &mut arena, &k).unwrap_err();
    match err {
        FunctionalError::Sanitize(f) => assert_eq!(f.kind, FindingKind::MissingBarrier),
        other => panic!("expected MissingBarrier, got {other:?}"),
    }
}

#[test]
fn negative_cross_workgroup_race() {
    let mut arena = GlobalArena::new(4);
    let k = kernarg_one_ptr(0);
    let mut cfg =
        cfg_sanitize(LaunchConfig { grid: [2, 1, 1], workgroup: [1, 1, 1] }, SanitizeMode::FailFast);
    cfg.schedule = SchedulePolicy::LexWorkitem;
    let err = run_with_config_sanitized(&cross_workgroup_store_zero(), cfg, &mut arena, &k).unwrap_err();
    match err {
        FunctionalError::Sanitize(f) => assert_eq!(f.kind, FindingKind::CrossWorkgroupRace),
        other => panic!("expected CrossWorkgroupRace, got {other:?}"),
    }
}

#[test]
fn collect_mode_records_race_without_stopping_on_soft_finding() {
    let mut arena = GlobalArena::new(4);
    let k = kernarg_one_ptr(0);
    let mut cfg = cfg_sanitize(launch_1d(4, 4), SanitizeMode::Collect);
    cfg.schedule = SchedulePolicy::LexWorkitem;
    let (_r, san) = run_with_config_sanitized(&race_all_store_global_zero(), cfg, &mut arena, &k).unwrap();
    assert!(!san.ok());
    assert!(san.findings.iter().any(|f| f.kind == FindingKind::Race));
}

#[test]
fn shadow_limit_rejected() {
    let err = Sanitizer::new(SanitizeMode::Collect, MAX_SHADOW_BYTES, 1).unwrap_err();
    match err {
        FunctionalError::Sanitize(f) => assert_eq!(f.kind, FindingKind::ShadowLimit),
        other => panic!("expected ShadowLimit, got {other:?}"),
    }
}

#[test]
fn replay_bundle_is_deterministic() {
    let n = 8u32;
    let mut arena = GlobalArena::new((n as usize) * 4);
    let k = kernarg_one_ptr(0);
    let cfg = cfg_sanitize(launch_1d(1, 1), SanitizeMode::FailFast);
    let prog = oob_store_past_end(n);
    let err = run_with_config_sanitized(&prog, cfg, &mut arena, &k).unwrap_err();
    let FunctionalError::Sanitize(f) = err else {
        panic!("expected sanitize");
    };
    let b1 = ReplayBundle::from_finding(&prog, &cfg, f.clone());
    let b2 = ReplayBundle::from_finding(&prog, &cfg, f);
    assert_eq!(b1.schema, SANITIZER_REPLAY_SCHEMA);
    assert_eq!(b1, b2);
}

#[test]
fn breakpoint_after_step_is_accurate() {
    let n = 4u32;
    let mut arena = GlobalArena::new((n as usize) * 4);
    let k = kernarg_one_ptr(0);
    let cfg = ExecConfig::from_launch(launch_1d(n, n));
    let (report, trace) = run_debug(
        &tiny_index(),
        cfg,
        &mut arena,
        &k,
        vec![Breakpoint::AfterStep { step: 3 }],
        false,
        DEFAULT_TRACE_EVENT_BUDGET,
    )
    .unwrap();
    let stop = report.stop.expect("expected breakpoint stop");
    assert_eq!(stop.reason, "after_step");
    assert_eq!(stop.snapshot.step, 3);
    assert!(stop.snapshot.source_mapping.is_none());
    assert!(trace.events().iter().any(|e| matches!(e, TraceEvent::Break { .. })));
}

#[test]
fn memory_breakpoint_and_register_snapshot() {
    let n = 2u32;
    let mut arena = GlobalArena::new((n as usize) * 4);
    let k = kernarg_one_ptr(0);
    let cfg = ExecConfig::from_launch(launch_1d(n, n));
    let (report, _) = run_debug(
        &tiny_index(),
        cfg,
        &mut arena,
        &k,
        vec![Breakpoint::OnMemoryAccess],
        false,
        DEFAULT_TRACE_EVENT_BUDGET,
    )
    .unwrap();
    let stop = report.stop.expect("memory bp");
    assert_eq!(stop.reason, "memory_access");
    assert!(
        stop.snapshot.registers.iter().any(|(name, _)| name == "i") || stop.snapshot.op.contains("store"),
        "regs={:?}",
        stop.snapshot.registers
    );
}

#[test]
fn trace_budget_exhaustion() {
    let n = 8u32;
    let mut arena = GlobalArena::new((n as usize) * 4);
    let k = kernarg_one_ptr(0);
    let cfg = ExecConfig::from_launch(launch_1d(n, n));
    let err = run_debug(&tiny_index(), cfg, &mut arena, &k, vec![], false, 2).unwrap_err();
    match err {
        FunctionalError::Validation { detail } => assert!(detail.contains("budget")),
        other => panic!("expected budget validation, got {other:?}"),
    }
}

#[test]
fn inspect_sanitizer_race_finding() {
    let mut arena = GlobalArena::new(4);
    let k = kernarg_one_ptr(0);
    let mut cfg = ExecConfig::from_launch(launch_1d(4, 4));
    cfg.sanitize = SanitizeMode::FailFast;
    cfg.schedule = SchedulePolicy::LexWorkitem;
    let err = run_with_config_sanitized(&race_all_store_global_zero(), cfg, &mut arena, &k).unwrap_err();
    let FunctionalError::Sanitize(finding) = err else {
        panic!("expected sanitize race");
    };
    assert_eq!(finding.kind, FindingKind::Race);

    let mut arena2 = GlobalArena::new(4);
    let (report, _trace, bundle) =
        inspect_sanitizer_finding(&race_all_store_global_zero(), cfg, &mut arena2, &k, &finding).unwrap();
    assert!(report.stop.is_some());
    assert_eq!(bundle.finding.kind, FindingKind::Race);
    assert!(report.stop.as_ref().unwrap().snapshot.source_mapping.is_none());
}

#[test]
fn seeded_explore_finds_and_minimizes_race() {
    let mut base = ExecConfig::from_launch(launch_1d(8, 8));
    base.schedule = SchedulePolicy::LexWorkitem;
    let k = kernarg_one_ptr(0);
    let report = explore_and_minimize_race(&race_all_store_global_zero(), base, &k, 4, 0xC0FFEE, 16).unwrap();
    assert!(report.trials.iter().any(|t| t.found), "trials={:?}", report.trials);
    let mini = report.minimized.expect("minimized");
    assert!(mini.found);
    assert!(mini.workgroup_x <= 8);
    assert!(mini.step.unwrap_or(0) >= 1);
}

#[test]
fn single_step_breaks_immediately() {
    let n = 2u32;
    let mut arena = GlobalArena::new((n as usize) * 4);
    let k = kernarg_one_ptr(0);
    let cfg = ExecConfig::from_launch(launch_1d(n, n));
    let (report, trace) = run_debug(&tiny_index(), cfg, &mut arena, &k, vec![], true, DEFAULT_TRACE_EVENT_BUDGET)
        .unwrap();
    let stop = report.stop.expect("single step");
    assert_eq!(stop.reason, "single_step");
    assert_eq!(stop.snapshot.step, 1);
    assert!(!trace.exhausted());
}

#[test]
fn run_debug_completes_without_breakpoints() {
    let n = 4u32;
    let mut arena = GlobalArena::new((n as usize) * 4);
    let k = kernarg_one_ptr(0);
    let cfg = ExecConfig::from_launch(launch_1d(n, n));
    let (report, trace) = run_debug(&tiny_index(), cfg, &mut arena, &k, vec![], false, DEFAULT_TRACE_EVENT_BUDGET)
        .unwrap();
    assert!(report.stop.is_none());
    assert!(report.run.is_some());
    assert!(trace.events().iter().any(|e| matches!(e, TraceEvent::Done { .. })));
}

#[test]
fn explore_race_free_kernel_has_no_hit() {
    let mut base = ExecConfig::from_launch(launch_1d(4, 4));
    base.schedule = SchedulePolicy::LexWorkitem;
    let k = kernarg_one_ptr(0);
    let report = explore_and_minimize_race(&tiny_index(), base, &k, 16, 1, 4).unwrap();
    assert!(report.trials.iter().all(|t| !t.found));
    assert!(report.minimized.is_none());
}

#[test]
fn debug_traces_barrier_on_group_exchange() {
    let wg = 4u32;
    let mut arena = GlobalArena::new((wg as usize) * 4);
    let k = kernarg_one_ptr(0);
    let mut cfg = ExecConfig::from_launch(launch_1d(wg, wg));
    cfg.schedule = SchedulePolicy::WaveBarrier;
    cfg.wave_size = 2;
    let (report, trace) = run_debug(
        &group_exchange(wg),
        cfg,
        &mut arena,
        &k,
        vec![Breakpoint::AfterStep { step: 500 }],
        false,
        DEFAULT_TRACE_EVENT_BUDGET,
    )
    .unwrap();
    assert!(report.run.is_some() || report.stop.is_some());
    assert!(trace.events().iter().any(|e| matches!(e, TraceEvent::Barrier { .. })));
}

#[test]
fn noop_observer_via_run_with_observer() {
    let n = 4u32;
    let mut arena = GlobalArena::new((n as usize) * 4);
    let k = kernarg_one_ptr(0);
    let cfg = ExecConfig::from_launch(launch_1d(n, n));
    let mut obs = NoopObserver;
    let (report, _) = run_with_observer(&tiny_index(), cfg, &mut arena, &k, &mut obs).unwrap();
    assert_eq!(report.workitems_executed, u64::from(n));
}

#[test]
fn schema_constant_stable() {
    assert_eq!(DEBUG_TRACE_SCHEMA, "softgpu-debug-trace-v1");
}

#[test]
fn snapshot_never_invents_source_mapping() {
    let p = Program {
        schema: SFIR_SCHEMA.into(),
        fidelity: "functional".into(),
        note: "not_gfx1201_isa_emulation".into(),
        name: "t".into(),
        source_provenance: "SoftGPU-authored".into(),
        kernarg_layout: vec![],
        group_bytes: 0,
        body: vec![Op::Ret],
    };
    let snap = StateSnapshot::from_lane(
        1,
        0,
        WorkItemId { workgroup: [0, 0, 0], wave: 0, lane: 0, flat_local: 0 },
        "const",
        &Registers::new(),
        &p,
    );
    assert!(snap.source_mapping.is_none());
    assert_eq!(snap.source_provenance, "SoftGPU-authored");
}

#[test]
fn replay_schema_is_stable() {
    assert_eq!(SANITIZER_REPLAY_SCHEMA, "softgpu-sanitizer-replay-v1");
}

#[test]
fn bounds_error_text_is_exact() {
    let e = FunctionalError::Bounds { addr: 0x10, size: 4, arena_len: 2 };
    assert_eq!(e.describe(), "bounds: addr=0x10 size=4 arena_len=2");
    let u = FunctionalError::UndefinedReg { name: "r0".into() };
    assert_eq!(u.describe(), "undefined register 'r0'");
}

#[test]
fn load_after_store_keeps_value_as_type_keeps_it() {
    let mut a = GlobalArena::new(16);
    a.store(4, TypeId::I32, 0x1_8000_0000).unwrap();
    assert_eq!(a.load(4, TypeId::I32).unwrap(), i64::from(0x8000_0000u32 as i32));
    a.store(4, TypeId::U32, -1).unwrap();
    assert_eq!(a.load(4, TypeId::U32).unwrap(), 0xffff_ffff);
    a.store(8, TypeId::U64, i64::MIN).unwrap();
    assert_eq!(a.load(8, TypeId::U64).unwrap(), i64::MIN);
    assert_eq!(a.load(0, TypeId::I32).unwrap(), 0);
    let before = a.as_slice().to_vec();
    assert!(a.store(13, TypeId::U32, 5).is_err());
    assert_eq!(a.as_slice(), &before[..]);
}

#[test]
fn ramp_wraps_and_keeps_trailing_bytes() {
    let mut a = GlobalArena::from_bytes(vec![9u8; 10]);
    a.fill_i32_ramp(i32::MAX);
    assert_eq!(a.load(0, TypeId::I32).unwrap(), i64::from(i32::MAX));
    assert_eq!(a.load(4, TypeId::I32).unwrap(), i64::from(i32::MIN));
    assert_eq!(&a.as_slice()[8..], &[9u8, 9]);
}

#[test]
fn barrier_segments_split_at_barriers_and_stop_at_ret() {
    let body = vec![
        Op::LocalId { dst: "l".into(), dim: 0 },
        Op::Barrier,
        Op::Const { dst: "c".into(), ty: TypeId::I32, value: 1 },
        Op::Ret,
        Op::Barrier,
    ];
    let segs = barrier_segments(&body).unwrap();
    assert_eq!(segs.len(), 2);
    assert_eq!(segs[0].len(), 1);
    assert_eq!(segs[1].len(), 1);
    assert!(barrier_segments(&vec![Op::Const { dst: "c".into(), ty: TypeId::I32, value: 1 }]).is_err());
}

#[test]
fn inactive_lanes_are_untouched_by_if() {
    let prog = base_program(
        "only_lane_zero",
        vec![
            Op::GlobalId { dst: "i".into(), dim: 0 },
            Op::Const { dst: "zero".into(), ty: TypeId::U32, value: 0 },
            Op::CmpEq { dst: "first".into(), lhs: "i".into(), rhs: "zero".into(), ty: TypeId::U32 },
            Op::If {
                cond: "first".into(),
                then_body: vec![
                    Op::Const { dst: "p".into(), ty: TypeId::U64, value: 0 },
                    Op::Const { dst: "v".into(), ty: TypeId::I32, value: 5 },
                    Op::StoreGlobal { addr: "p".into(), src: "v".into(), ty: TypeId::I32 },
                ],
                else_body: vec![],
            },
            Op::Ret,
        ],
    );
    let mut arena = GlobalArena::new(8);
    let mut cfg = ExecConfig::from_launch(launch_1d(2, 2));
    cfg.schedule = SchedulePolicy::WaveBarrier;
    let rep = run_with_config(&prog, cfg, &mut arena, &[]).unwrap();
    assert_eq!(arena.load(0, TypeId::I32).unwrap(), 5);
    assert_eq!(arena.load(4, TypeId::I32).unwrap(), 0);
    assert_eq!(rep.workitems_executed, 2);
}

#[test]
fn while_without_progress_reports_budget_exceeded() {
    let prog = base_program(
        "spin",
        vec![
            Op::Const { dst: "one".into(), ty: TypeId::I32, value: 1 },
            Op::While { cond: "one".into(), body: vec![] },
            Op::Ret,
        ],
    );
    let err = run(&prog, launch_1x1(), &mut GlobalArena::new(0), &[]).unwrap_err();
    assert!(matches!(err, FunctionalError::StepBudgetExceeded { .. }));
}

#[test]
fn trace_header_check() {
    assert!(validate_trace_header(&vec![]).is_ok());
    let bad = TraceEvent::Done { steps: 1, workitems: 1 };
    assert!(validate_trace_header(&vec![bad]).is_err());
}

#[test]
fn sanitizer_off_reports_no_findings_on_racy_kernel() {
    let mut arena = GlobalArena::new(4);
    let k = kernarg_one_ptr(0);
    let cfg = cfg_sanitize(launch_1d(4, 4), SanitizeMode::Off);
    let (rep, san) = run_with_config_sanitized(&race_all_store_global_zero(), cfg, &mut arena, &k).unwrap();
    assert!(san.ok());
    assert_eq!(rep.workitems_executed, 4);
    assert_eq!(rep.barrier_generations, 0);
}

#[test]
fn display_covers_variants() {
    let cases = [
        FunctionalError::Io("x".into()),
        FunctionalError::Parse("p".into()),
        FunctionalError::Unsupported { detail: "u".into() },
        FunctionalError::Validation { detail: "v".into() },
        FunctionalError::Bounds { addr: 0x10, size: 4, arena_len: 2 },
        FunctionalError::UndefinedReg { name: "r0".into() },
        FunctionalError::StepBudgetExceeded { steps: 9 },
        FunctionalError::Internal("i".into()),
    ];
    for err in cases {
        let s = err.describe();
        assert!(!s.is_empty(), "{err:?}");
    }
}

#[test]
fn sanitizer_mode_does_not_change_results() {
    let wg = 16u32;
    let prog = group_exchange(wg);
    let k = kernarg_one_ptr(0);
    let mut plain = GlobalArena::new((wg as usize) * 4);
    let mut watched = GlobalArena::new((wg as usize) * 4);
    let mut off = cfg_sanitize(launch_1d(wg, wg), SanitizeMode::Off);
    off.schedule = SchedulePolicy::WaveBarrier;
    let mut collect = off;
    collect.sanitize = SanitizeMode::Collect;
    let (r1, _) = run_with_config_sanitized(&prog, off, &mut plain, &k).unwrap();
    let (r2, san) = run_with_config_sanitized(&prog, collect, &mut watched, &k).unwrap();
    assert!(san.ok(), "{:?}", san.findings);
    assert_eq!(r1.steps, r2.steps);
    assert_eq!(r1.atomics_executed, r2.atomics_executed);
    assert_eq!(plain.as_slice(), watched.as_slice());
}

#[test]
fn trace_budget_error_names_the_budget() {
    let n = 4u32;
    let mut arena = GlobalArena::new((n as usize) * 4);
    let k = kernarg_one_ptr(0);
    let cfg = ExecConfig::from_launch(launch_1d(n, n));
    let err = run_debug(&tiny_index(), cfg, &mut arena, &k, vec![], false, 3).unwrap_err();
    assert_eq!(
        err,
        FunctionalError::Validation { detail: "debug trace event budget exhausted (budget=3)".into() }
    );
}

#[test]
fn validation_error_is_returned_unchanged() {
    let p = group_exchange(4);
    let cfg = ExecConfig::from_launch(launch_1d(4, 4));
    let expected = cfg.validate(&p).unwrap_err();
    assert_eq!(
        expected,
        FunctionalError::Validation { detail: "programs with barrier require schedule=wave_barrier".into() }
    );
    let mut arena = GlobalArena::new(64);
    let before = arena.as_slice().to_vec();
    let k = kernarg_one_ptr(0);
    let san = Sanitizer::new(SanitizeMode::Off, 0, 0).unwrap();
    let err = run_with_sanitizer(&p, cfg, &mut arena, &k, san).unwrap_err();
    assert_eq!(err, expected);
    assert_eq!(arena.as_slice(), &before[..]);
}

#[test]
fn launch_error_is_returned_unchanged() {
    let cfg = ExecConfig::from_launch(launch_1d(6, 4));
    let err = cfg.validate(&tiny_index()).unwrap_err();
    assert_eq!(
        err,
        FunctionalError::Validation { detail: "grid dimension not divisible by workgroup dimension".into() }
    );
    assert_eq!(cfg.launch.validate().unwrap_err(), err);
}

#[test]
fn failfast_clean_run_has_no_findings() {
    let n = 8u32;
    let mut arena = GlobalArena::new((n as usize) * 8);
    let k = kernarg_two_ptrs(0, (n as u64) * 4);
    let mut cfg = ExecConfig::from_launch(launch_1d(n, n));
    cfg.sanitize = SanitizeMode::FailFast;
    let (_, rep) = run_with_config_sanitized(&tiny_add(), cfg, &mut arena, &k).unwrap();
    assert!(rep.findings.is_empty());
}

#[test]
fn tiny_add_body_adds_one() {
    let p = tiny_add();
    assert_eq!(p.body.len(), 12);
    assert_eq!(p.body[6], Op::Const { dst: "one".into(), ty: TypeId::I32, value: 1 });
    assert_eq!(p.body[7], Op::Add { dst: "out".into(), lhs: "va".into(), rhs: "one".into(), ty: TypeId::I32 });
    assert_eq!(p.body[10], Op::StoreGlobal { addr: "addr_b".into(), src: "out".into(), ty: TypeId::I32 });
    assert_eq!(p.body[11], Op::Ret);
}
