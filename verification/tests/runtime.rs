use softgpu::code_object::fixture::{fixture_tiny_add_gfx1201, fixture_tiny_add_with_text};
use softgpu::device::agent::{AgentInfoAttr, AgentKind};
use softgpu::device::aql::{
    golden_kernel_dispatch_1d, parse_kernel_dispatch, replay_dispatch, AqlParseError, KernargClass, PacketType,
    DIAGNOSTIC_COMPLETE_NO_EXECUTION, DIAGNOSTIC_REJECTED, KERNEL_SUCCESS, PACKET_TYPE_AGENT_DISPATCH,
    PACKET_TYPE_BARRIER_AND,
};
use softgpu::device::fidelity::FidelityLevel;
use softgpu::device::handle::{HandleKind, PackedHandle};
use softgpu::device::memory::{
    MemoryViewKind, PoolInfoValue, RegionInfoValue, SoftGpuAllocator, AMD_POOL_LOCATION_CPU, SOFTGPU_ALLOC_ALIGNMENT,
    SOFTGPU_ALLOC_GRANULE, SOFTGPU_MAX_ALLOC_BYTES, SOFTGPU_POOL_BYTES,
};
use softgpu::device::profile::{DeviceProfile, ProfileField, ProfileIdentity, ResourceLimits};
use softgpu::device::queue::{
    is_power_of_two, QUEUE_FEATURE_KERNEL_DISPATCH, QUEUE_TYPE_MULTI, SOFTGPU_QUEUES_MAX, SOFTGPU_QUEUE_MAX_SIZE,
    SOFTGPU_QUEUE_MIN_SIZE,
};
use softgpu::device::runtime::{
    install_runtime, with_runtime, AgentInfoValue, PoolInfoAttr, RegionInfoAttr, Runtime, RuntimeError,
    AGENT_FEATURE_KERNEL_DISPATCH,
};
use softgpu::device::hsa::{
    agent_answer_bytes, c_string64, map_attr, map_runtime_error, system_answer_bytes, HSA_AGENT_INFO_DEVICE,
    HSA_AGENT_INFO_NAME, HSA_STATUS_ERROR, HSA_STATUS_ERROR_INVALID_AGENT, HSA_STATUS_ERROR_INVALID_ARGUMENT,
    HSA_STATUS_ERROR_NOT_INITIALIZED, HSA_SYSTEM_INFO_EXTENSIONS, HSA_SYSTEM_INFO_TIMESTAMP,
    HSA_SYSTEM_INFO_VERSION_MINOR,
};
use softgpu::device::signal::SignalWaitOutcome;
use softgpu::device::trace::TraceEvent;

fn profile_named(id: &str, product: &str, fidelity: FidelityLevel) -> DeviceProfile {
    DeviceProfile {
        schema_version: 1,
        profile_id: id.into(),
        profile_revision: "0".into(),
        identity: ProfileIdentity {
            vendor: "SoftGPU".into(),
            product_name: product.into(),
            architecture_family: "softgpu-abstract".into(),
            llvm_target: ProfileField::unknown(),
        },
        max_fidelity: fidelity,
        conformance_allowed: false,
        resource_limits: ResourceLimits::default(),
        analytical_performance: Default::default(),
        quirks: vec![],
    }
}

fn test_profile() -> DeviceProfile {
    profile_named("test-gpu", "Test GPU", FidelityLevel::Abi)
}

fn gpu_agent(rt: &mut Runtime) -> PackedHandle {
    let mut h = PackedHandle::invalid();
    rt.iterate_agents(|a| {
        h = a.handle;
        Ok(())
    })
    .unwrap();
    h
}

fn region(rt: &Runtime, agent: PackedHandle, kind: MemoryViewKind) -> PackedHandle {
    let mut out = PackedHandle::invalid();
    rt.iterate_regions(agent, |space| {
        if space.kind == kind {
            out = space.handle;
        }
        Ok(())
    })
    .unwrap();
    out
}

fn doorbell_of(rt: &Runtime, q: PackedHandle) -> PackedHandle {
    PackedHandle::from_raw(rt.queue_abi(q).unwrap().doorbell_signal)
}

fn observed_indexes(rt: &Runtime) -> Vec<u64> {
    rt.trace_snapshot()
        .iter()
        .filter_map(|e| match e {
            TraceEvent::PacketObserved { packet_index, .. } => Some(*packet_index),
            _ => None,
        })
        .collect()
}

fn write_i32s(rt: &mut Runtime, addr: u64, values: &[i32]) {
    let mut bytes = Vec::new();
    for v in values {
        bytes.extend_from_slice(&v.to_le_bytes());
    }
    rt.memory_write(addr, &bytes).unwrap();
}

fn read_i32s(rt: &Runtime, addr: u64, n: usize) -> Vec<i32> {
    let bytes = rt.memory_read(addr, n * 4).unwrap();
    bytes.chunks(4).map(|c| i32::from_le_bytes([c[0], c[1], c[2], c[3]])).collect()
}

#[test]
fn init_enumerates_one_gpu_agent() {
    let mut rt = Runtime::new(test_profile()).unwrap();
    rt.init().unwrap();
    let mut count = 0;
    let mut handle = PackedHandle::invalid();
    rt.iterate_agents(|agent| {
        count += 1;
        assert_eq!(agent.kind, AgentKind::Gpu);
        assert_eq!(agent.feature_mask, AGENT_FEATURE_KERNEL_DISPATCH);
        handle = agent.handle;
        Ok(())
    })
    .unwrap();
    assert_eq!(count, 1);
    let name = rt.agent_get_info(handle, AgentInfoAttr::Name).unwrap();
    assert_eq!(name, AgentInfoValue::Name("Test GPU".into()));
    rt.shut_down().unwrap();
}

#[test]
fn path_c_regions_and_pools_allocate() {
    let mut rt = Runtime::new(test_profile()).unwrap();
    rt.init().unwrap();
    let agent = gpu_agent(&mut rt);
    let mut region = None;
    rt.iterate_regions(agent, |space| {
        if space.kind == MemoryViewKind::RegionFineKernarg {
            region = Some(space.handle);
        }
        Ok(())
    })
    .unwrap();
    let region = region.expect("fine region");
    let ptr = rt.memory_allocate(region, 128).unwrap();
    assert!(ptr != 0);
    rt.memory_free(ptr).unwrap();

    let mut pool = None;
    rt.iterate_pools(agent, |space| {
        if space.kind == MemoryViewKind::PoolFineHost {
            pool = Some(space.handle);
        }
        Ok(())
    })
    .unwrap();
    let pool = pool.expect("fine pool");
    let ptr = rt.memory_allocate(pool, 256).unwrap();
    rt.memory_free(ptr).unwrap();
    rt.shut_down().unwrap();
}

#[test]
fn signal_and_queue_observe_doorbell() {
    let mut rt = Runtime::new(test_profile()).unwrap();
    rt.init().unwrap();
    let agent = gpu_agent(&mut rt);
    let q = rt.queue_create(agent, SOFTGPU_QUEUE_MIN_SIZE, QUEUE_TYPE_MULTI).unwrap();
    assert!(!q.is_invalid());
    let doorbell = rt.queue_abi(q).unwrap().doorbell_signal;
    rt.signal_store(PackedHandle::from_raw(doorbell), 1).unwrap();
    assert_eq!(rt.queue_doorbell_count(q).unwrap(), 1);
    rt.queue_store_write_index(q, 1).unwrap();
    assert_eq!(rt.queue_load_write_index(q).unwrap(), 1);
    rt.queue_destroy(q).unwrap();
    rt.shut_down().unwrap();
}

#[test]
fn stale_handle_after_shutdown_fails() {
    let mut rt = Runtime::new(test_profile()).unwrap();
    rt.init().unwrap();
    let handle = gpu_agent(&mut rt);
    rt.shut_down().unwrap();
    let err = rt.agent_get_info(handle, AgentInfoAttr::Name).unwrap_err();
    assert_eq!(err, RuntimeError::NotInitialized);
    rt.init().unwrap();
    let err = rt.agent_get_info(handle, AgentInfoAttr::Name).unwrap_err();
    assert_eq!(err, RuntimeError::InvalidAgent);
    rt.shut_down().unwrap();
}

#[test]
fn forged_handle_rejected() {
    let mut rt = Runtime::new(test_profile()).unwrap();
    rt.init().unwrap();
    let forged = PackedHandle::from_raw(0xDEAD_BEEF_DEAD_BEEF);
    assert_eq!(rt.agent_get_info(forged, AgentInfoAttr::Device).unwrap_err(), RuntimeError::InvalidAgent);
    rt.shut_down().unwrap();
}

#[test]
fn traces_include_profile_and_fidelity() {
    let mut rt = Runtime::new(test_profile()).unwrap();
    rt.init().unwrap();
    let events = rt.trace_snapshot();
    assert!(events.iter().any(|e| matches!(
        e,
        TraceEvent::RuntimeInit {
            fidelity,
            profile_id,
            ..
        } if fidelity == "abi" && profile_id == "test-gpu"
    )));
    rt.shut_down().unwrap();
}

#[test]
fn softgpu_queue_limits_are_software_defaults() {
    assert!(SOFTGPU_QUEUE_MIN_SIZE.is_power_of_two());
    assert!(SOFTGPU_QUEUE_MAX_SIZE.is_power_of_two());
    assert!(is_power_of_two(SOFTGPU_QUEUE_MIN_SIZE));
    assert!(is_power_of_two(SOFTGPU_QUEUE_MAX_SIZE));
    assert!(SOFTGPU_QUEUES_MAX > 0);
}

#[test]
fn malformed_queue_sizes_fail_closed() {
    let mut rt = Runtime::new(profile_named("charter-test", "Charter GPU", FidelityLevel::Abi)).unwrap();
    rt.init().unwrap();
    let agent = gpu_agent(&mut rt);
    assert_eq!(rt.queue_create(agent, 0, QUEUE_TYPE_MULTI).unwrap_err(), RuntimeError::InvalidArgument);
    assert_eq!(rt.queue_create(agent, 3, QUEUE_TYPE_MULTI).unwrap_err(), RuntimeError::InvalidArgument);
    assert_eq!(rt.queue_create(agent, SOFTGPU_QUEUE_MIN_SIZE, 2).unwrap_err(), RuntimeError::InvalidQueueCreation);
    rt.shut_down().unwrap();
}

#[test]
fn allocation_exhaustion_and_lookup_metadata() {
    let mut alloc = SoftGpuAllocator::new(SOFTGPU_ALLOC_GRANULE * 2);
    let space = PackedHandle::pack(HandleKind::Region, 1, 0);
    let a = alloc
        .allocate(space, SOFTGPU_ALLOC_GRANULE, SOFTGPU_ALLOC_GRANULE, SOFTGPU_ALLOC_ALIGNMENT, SOFTGPU_ALLOC_GRANULE * 2)
        .unwrap();
    let _b = alloc
        .allocate(space, SOFTGPU_ALLOC_GRANULE, SOFTGPU_ALLOC_GRANULE, SOFTGPU_ALLOC_ALIGNMENT, SOFTGPU_ALLOC_GRANULE * 2)
        .unwrap();
    assert!(alloc
        .allocate(space, SOFTGPU_ALLOC_GRANULE, SOFTGPU_ALLOC_GRANULE, SOFTGPU_ALLOC_ALIGNMENT, SOFTGPU_ALLOC_GRANULE * 2)
        .is_err());
    let meta = alloc.lookup(a).unwrap();
    assert!(meta.host_readable && meta.host_writable);
    assert_eq!(meta.space, space);
    alloc.free(a).unwrap();
}

#[test]
fn signal_timeout_and_stale_after_destroy() {
    let mut rt = Runtime::new(profile_named("charter-test", "Charter GPU", FidelityLevel::Abi)).unwrap();
    rt.init().unwrap();
    let sig = rt.signal_create(0).unwrap();
    match rt.signal_wait(sig, 0, 1, 500_000, 1).unwrap() {
        SignalWaitOutcome::TimedOut(v) => assert_eq!(v, 0),
        other => panic!("expected timeout, got {other:?}"),
    }
    rt.signal_destroy(sig).unwrap();
    assert_eq!(rt.signal_load(sig).unwrap_err(), RuntimeError::InvalidSignal);
    rt.shut_down().unwrap();
}

#[test]
fn packet_observed_exactly_once_with_ordering() {
    let mut rt = Runtime::new(profile_named("charter-test", "Charter GPU", FidelityLevel::Abi)).unwrap();
    rt.init().unwrap();
    let agent = gpu_agent(&mut rt);
    let q = rt.queue_create(agent, SOFTGPU_QUEUE_MIN_SIZE, QUEUE_TYPE_MULTI).unwrap();
    let doorbell = doorbell_of(&rt, q);
    let pkt = golden_kernel_dispatch_1d(64, 256, 0x1000, 0, 0);
    assert!(rt.queue_write_packet(q, 0, &pkt).unwrap());
    assert!(rt.queue_write_packet(q, 1, &pkt).unwrap());
    rt.queue_store_write_index(q, 2).unwrap();
    rt.signal_store(doorbell, 1).unwrap();
    assert_eq!(observed_indexes(&rt), vec![0, 1]);
    rt.signal_store(doorbell, 2).unwrap();
    assert_eq!(observed_indexes(&rt), vec![0, 1]);
    rt.queue_destroy(q).unwrap();
    rt.shut_down().unwrap();
}

#[test]
fn wraparound_packet_indexes() {
    let mut rt = Runtime::new(profile_named("charter-test", "Charter GPU", FidelityLevel::Abi)).unwrap();
    rt.init().unwrap();
    let agent = gpu_agent(&mut rt);
    let q = rt.queue_create(agent, SOFTGPU_QUEUE_MIN_SIZE, QUEUE_TYPE_MULTI).unwrap();
    let doorbell = doorbell_of(&rt, q);
    let n = u64::from(SOFTGPU_QUEUE_MIN_SIZE);
    let pkt = golden_kernel_dispatch_1d(64, 256, 0x1000, 0, 0);
    for i in 0..n {
        assert!(rt.queue_write_packet(q, i, &pkt).unwrap());
    }
    rt.queue_store_write_index(q, n).unwrap();
    rt.signal_store(doorbell, 1).unwrap();
    assert!(rt.queue_write_packet(q, n, &pkt).unwrap());
    rt.queue_store_write_index(q, n + 1).unwrap();
    rt.signal_store(doorbell, 2).unwrap();
    let idxs = observed_indexes(&rt);
    assert_eq!(idxs.len(), (n + 1) as usize);
    assert_eq!(*idxs.last().unwrap(), n);
    rt.queue_destroy(q).unwrap();
    rt.shut_down().unwrap();
}

#[test]
fn queue_cap_resource_limit() {
    let mut rt = Runtime::new(profile_named("charter-test", "Charter GPU", FidelityLevel::Abi)).unwrap();
    rt.init().unwrap();
    let agent = gpu_agent(&mut rt);
    let mut queues = Vec::new();
    for _ in 0..SOFTGPU_QUEUES_MAX {
        queues.push(rt.queue_create(agent, SOFTGPU_QUEUE_MIN_SIZE, QUEUE_TYPE_MULTI).unwrap());
    }
    assert_eq!(
        rt.queue_create(agent, SOFTGPU_QUEUE_MIN_SIZE, QUEUE_TYPE_MULTI).unwrap_err(),
        RuntimeError::OutOfResources
    );
    for q in queues {
        rt.queue_destroy(q).unwrap();
    }
    rt.shut_down().unwrap();
}

#[test]
fn diagnostic_complete_advances_read_index_and_completion() {
    let mut rt = Runtime::new(profile_named("phase4-test", "Phase4 GPU", FidelityLevel::Abi)).unwrap();
    rt.init().unwrap();
    let agent = gpu_agent(&mut rt);
    let q = rt.queue_create(agent, SOFTGPU_QUEUE_MIN_SIZE, QUEUE_TYPE_MULTI).unwrap();
    let completion = rt.signal_create(1).unwrap();
    let doorbell = doorbell_of(&rt, q);
    let pkt = golden_kernel_dispatch_1d(64, 256, 0xABCD, 0, completion.raw());
    assert!(rt.queue_write_packet(q, 0, &pkt).unwrap());
    rt.queue_store_write_index(q, 1).unwrap();
    rt.signal_store(doorbell, 1).unwrap();

    assert_eq!(rt.signal_load(completion).unwrap(), 0);
    assert_eq!(rt.queue_load_read_index(q).unwrap(), 1);
    assert!(!rt.dispatch_captures().is_empty());
    let cap = &rt.dispatch_captures()[0];
    assert_eq!(cap.kernel_object, 0xABCD);
    assert_eq!(cap.grid_size, [256, 1, 1]);

    let events = rt.trace_snapshot();
    assert!(events.iter().any(|e| matches!(
        e,
        TraceEvent::DiagnosticComplete {
            contract,
            note,
            ..
        } if contract == DIAGNOSTIC_COMPLETE_NO_EXECUTION && note == "not_kernel_success"
    )));
    assert!(events.iter().any(|e| matches!(e, TraceEvent::DispatchValidated { .. })));

    // Slot marked INVALID after processor progress.
    assert_eq!(rt.queue_read_packet(q, 0).unwrap()[0], 1);
    rt.queue_destroy(q).unwrap();
    rt.shut_down().unwrap();
}

#[test]
fn malformed_packet_diagnostic_reject_no_completion_store() {
    let mut rt = Runtime::new(profile_named("phase4-test", "Phase4 GPU", FidelityLevel::Abi)).unwrap();
    rt.init().unwrap();
    let agent = gpu_agent(&mut rt);
    let q = rt.queue_create(agent, SOFTGPU_QUEUE_MIN_SIZE, QUEUE_TYPE_MULTI).unwrap();
    let completion = rt.signal_create(1).unwrap();
    let doorbell = doorbell_of(&rt, q);
    let mut bad = golden_kernel_dispatch_1d(0, 256, 1, 0, completion.raw());
    bad[0] = 2;
    assert!(rt.queue_write_packet(q, 0, &bad).unwrap());
    rt.queue_store_write_index(q, 1).unwrap();
    rt.signal_store(doorbell, 1).unwrap();

    assert_eq!(rt.signal_load(completion).unwrap(), 1);
    assert_eq!(rt.queue_load_read_index(q).unwrap(), 1);
    assert!(rt.trace_snapshot().iter().any(|e| matches!(
        e,
        TraceEvent::DispatchRejected { contract, .. } if contract == DIAGNOSTIC_REJECTED
    )));
    rt.queue_destroy(q).unwrap();
    rt.shut_down().unwrap();
}

#[test]
fn unsupported_agent_dispatch_rejected() {
    let mut rt = Runtime::new(profile_named("phase4-test", "Phase4 GPU", FidelityLevel::Abi)).unwrap();
    rt.init().unwrap();
    let agent = gpu_agent(&mut rt);
    let q = rt.queue_create(agent, SOFTGPU_QUEUE_MIN_SIZE, QUEUE_TYPE_MULTI).unwrap();
    let doorbell = doorbell_of(&rt, q);
    let mut bytes = [0u8; 64];
    bytes[0] = PACKET_TYPE_AGENT_DISPATCH as u8;
    assert!(rt.queue_write_packet(q, 0, &bytes).unwrap());
    rt.queue_store_write_index(q, 1).unwrap();
    rt.signal_store(doorbell, 1).unwrap();
    assert!(rt.trace_snapshot().iter().any(|e| matches!(
        e,
        TraceEvent::DispatchRejected {
            packet_type,
            ..
        } if *packet_type == PACKET_TYPE_AGENT_DISPATCH
    )));
    rt.queue_destroy(q).unwrap();
    rt.shut_down().unwrap();
}

#[test]
fn barrier_minimal_diagnostic_complete() {
    let mut rt = Runtime::new(profile_named("phase4-test", "Phase4 GPU", FidelityLevel::Abi)).unwrap();
    rt.init().unwrap();
    let agent = gpu_agent(&mut rt);
    let q = rt.queue_create(agent, SOFTGPU_QUEUE_MIN_SIZE, QUEUE_TYPE_MULTI).unwrap();
    let completion = rt.signal_create(1).unwrap();
    let doorbell = doorbell_of(&rt, q);
    let mut bytes = [0u8; 64];
    bytes[0] = PACKET_TYPE_BARRIER_AND as u8;
    bytes[56..64].copy_from_slice(&completion.raw().to_le_bytes());
    assert!(rt.queue_write_packet(q, 0, &bytes).unwrap());
    rt.queue_store_write_index(q, 1).unwrap();
    rt.signal_store(doorbell, 1).unwrap();
    assert_eq!(rt.signal_load(completion).unwrap(), 0);
    let cap = rt.dispatch_captures().last().unwrap();
    assert_eq!(cap.packet_type, PacketType::BarrierAnd);
    rt.queue_destroy(q).unwrap();
    rt.shut_down().unwrap();
}

#[test]
fn kernarg_softgpu_vs_foreign_and_replay() {
    let mut rt = Runtime::new(profile_named("phase4-test", "Phase4 GPU", FidelityLevel::Abi)).unwrap();
    rt.init().unwrap();
    let agent = gpu_agent(&mut rt);
    let region = region(&rt, agent, MemoryViewKind::RegionFineKernarg);
    let kernarg = rt.memory_allocate(region, 64).unwrap();
    let q = rt.queue_create(agent, SOFTGPU_QUEUE_MIN_SIZE, QUEUE_TYPE_MULTI).unwrap();
    let doorbell = doorbell_of(&rt, q);

    let soft = golden_kernel_dispatch_1d(32, 32, 0x42, kernarg, 0);
    assert!(rt.queue_write_packet(q, 0, &soft).unwrap());
    rt.queue_store_write_index(q, 1).unwrap();
    rt.signal_store(doorbell, 1).unwrap();
    let soft_cap = rt.dispatch_captures().last().unwrap().clone();
    assert!(matches!(soft_cap.kernarg, KernargClass::SoftGpu { .. }));

    let foreign = golden_kernel_dispatch_1d(32, 32, 0x43, 0xDEAD_BEEF, 0);
    assert!(rt.queue_write_packet(q, 1, &foreign).unwrap());
    rt.queue_store_write_index(q, 2).unwrap();
    rt.signal_store(doorbell, 2).unwrap();
    let foreign_cap = rt.dispatch_captures().last().unwrap().clone();
    assert!(matches!(foreign_cap.kernarg, KernargClass::ForeignOpaque { addr: 0xDEAD_BEEF }));

    let replayed = replay_dispatch(&soft_cap.captured_bytes, soft_cap.packet_index).unwrap();
    assert_eq!(replayed.kernel_object, soft_cap.kernel_object);
    assert_eq!(replayed.grid_size, soft_cap.grid_size);
    assert!(matches!(replayed.kernarg, KernargClass::ForeignOpaque { .. }));

    rt.memory_free(kernarg).unwrap();
    rt.queue_destroy(q).unwrap();
    rt.shut_down().unwrap();
}

#[test]
fn field_mutation_overflow_rejected() {
    let mut bytes = golden_kernel_dispatch_1d(64, 256, 1, 0, 0);
    bytes[12..16].copy_from_slice(&32u32.to_le_bytes());
    let err = parse_kernel_dispatch(&bytes, 0, |_| KernargClass::Null).unwrap_err();
    assert!(matches!(err, AqlParseError::GridSmallerThanWorkgroup { dim: 0 }));

    let mut bytes = golden_kernel_dispatch_1d(64, 256, 1, 0, 0);
    bytes[6..8].copy_from_slice(&2u16.to_le_bytes());
    assert!(parse_kernel_dispatch(&bytes, 0, |_| KernargClass::Null).is_err());
}

#[test]
fn aql_dispatch_runs_registered_tiny_add() {
    let mut rt = Runtime::new(profile_named("phase11-test", "Phase11 GPU", FidelityLevel::ArchitecturalIsa)).unwrap();
    rt.init().unwrap();
    let agent = gpu_agent(&mut rt);
    let fine = region(&rt, agent, MemoryViewKind::RegionFineKernarg);
    let coarse = region(&rt, agent, MemoryViewKind::RegionCoarse);

    let n = 32usize;
    let a_ptr = rt.memory_allocate(coarse, n * 4).unwrap();
    let b_ptr = rt.memory_allocate(coarse, n * 4).unwrap();
    let kernarg = rt.memory_allocate(fine, 16).unwrap();
    let a: Vec<i32> = (0..n as i32).map(|i| i + 10).collect();
    write_i32s(&mut rt, a_ptr, &a);
    let mut k = Vec::new();
    k.extend_from_slice(&a_ptr.to_le_bytes());
    k.extend_from_slice(&b_ptr.to_le_bytes());
    rt.memory_write(kernarg, &k).unwrap();

    let kid = rt.register_builtin_tiny_add().unwrap();
    let q = rt.queue_create(agent, SOFTGPU_QUEUE_MIN_SIZE, QUEUE_TYPE_MULTI).unwrap();
    let completion = rt.signal_create(1).unwrap();
    let doorbell = doorbell_of(&rt, q);
    let pkt = golden_kernel_dispatch_1d(32, n as u32, kid, kernarg, completion.raw());
    assert!(rt.queue_write_packet(q, 0, &pkt).unwrap());
    rt.queue_store_write_index(q, 1).unwrap();
    rt.signal_store(doorbell, 1).unwrap();

    assert_eq!(rt.signal_load(completion).unwrap(), 0);
    let events = rt.trace_snapshot();
    assert!(
        events.iter().any(|e| matches!(
            e,
            TraceEvent::DiagnosticComplete { contract, note, .. }
                if contract == KERNEL_SUCCESS && note.contains("tiny_add")
        )),
        "events={events:?}"
    );
    let b = read_i32s(&rt, b_ptr, n);
    for (i, got) in b.iter().enumerate() {
        assert_eq!(*got, (i as i32 + 10) + 1, "i={i}");
    }
    rt.queue_destroy(q).unwrap();
    rt.shut_down().unwrap();
}

#[test]
fn unregistered_kernel_stays_diagnostic_only() {
    let mut rt = Runtime::new(profile_named("phase11-test", "Phase11 GPU", FidelityLevel::ArchitecturalIsa)).unwrap();
    rt.init().unwrap();
    let agent = gpu_agent(&mut rt);
    let q = rt.queue_create(agent, SOFTGPU_QUEUE_MIN_SIZE, QUEUE_TYPE_MULTI).unwrap();
    let completion = rt.signal_create(1).unwrap();
    let doorbell = doorbell_of(&rt, q);
    let pkt = golden_kernel_dispatch_1d(64, 64, 0xDEAD, 0, completion.raw());
    assert!(rt.queue_write_packet(q, 0, &pkt).unwrap());
    rt.queue_store_write_index(q, 1).unwrap();
    rt.signal_store(doorbell, 1).unwrap();
    let events = rt.trace_snapshot();
    assert!(events.iter().any(|e| matches!(
        e,
        TraceEvent::DiagnosticComplete { contract, .. } if contract == DIAGNOSTIC_COMPLETE_NO_EXECUTION
    )));
    rt.queue_destroy(q).unwrap();
    rt.shut_down().unwrap();
}

#[test]
fn executable_load_then_aql_kernel_success() {
    let mut rt =
        Runtime::new(profile_named("phase-hip-load-test", "HIP load GPU", FidelityLevel::ArchitecturalIsa)).unwrap();
    rt.init().unwrap();
    let agent = gpu_agent(&mut rt);
    let fine = region(&rt, agent, MemoryViewKind::RegionFineKernarg);
    let coarse = region(&rt, agent, MemoryViewKind::RegionCoarse);

    let bytes = fixture_tiny_add_with_text();
    let reader = rt.code_object_reader_create_from_memory(&bytes).unwrap();
    let exec = rt.executable_create().unwrap();
    rt.executable_load_agent_code_object(exec, reader).unwrap();
    rt.executable_freeze(exec).unwrap();
    let sym = rt.executable_get_symbol_by_name(exec, "tiny_add").unwrap();
    let kid = rt.executable_symbol_kernel_object(sym).unwrap();

    let n = 32usize;
    let a_ptr = rt.memory_allocate(coarse, n * 4).unwrap();
    let b_ptr = rt.memory_allocate(coarse, n * 4).unwrap();
    let kernarg = rt.memory_allocate(fine, 16).unwrap();
    let a: Vec<i32> = (0..n as i32).map(|i| i + 10).collect();
    write_i32s(&mut rt, a_ptr, &a);
    let mut k = Vec::new();
    k.extend_from_slice(&a_ptr.to_le_bytes());
    k.extend_from_slice(&b_ptr.to_le_bytes());
    rt.memory_write(kernarg, &k).unwrap();

    let q = rt.queue_create(agent, SOFTGPU_QUEUE_MIN_SIZE, QUEUE_TYPE_MULTI).unwrap();
    let completion = rt.signal_create(1).unwrap();
    let doorbell = doorbell_of(&rt, q);
    let pkt = golden_kernel_dispatch_1d(32, n as u32, kid, kernarg, completion.raw());
    assert!(rt.queue_write_packet(q, 0, &pkt).unwrap());
    rt.queue_store_write_index(q, 1).unwrap();
    rt.signal_store(doorbell, 1).unwrap();

    assert_eq!(rt.signal_load(completion).unwrap(), 0);
    let events = rt.trace_snapshot();
    assert!(
        events.iter().any(|e| matches!(
            e,
            TraceEvent::DiagnosticComplete { contract, note, .. }
                if contract == KERNEL_SUCCESS && note.contains("tiny_add")
        )),
        "events={events:?}"
    );
    let b = read_i32s(&rt, b_ptr, n);
    for (i, got) in b.iter().enumerate() {
        assert_eq!(*got, (i as i32 + 10) + 1, "i={i}");
    }
    rt.queue_destroy(q).unwrap();
    rt.shut_down().unwrap();
}

#[test]
fn load_rejects_metadata_only() {
    let mut rt =
        Runtime::new(profile_named("phase-hip-load-test", "HIP load GPU", FidelityLevel::ArchitecturalIsa)).unwrap();
    rt.init().unwrap();
    let bytes = fixture_tiny_add_gfx1201();
    let reader = rt.code_object_reader_create_from_memory(&bytes).unwrap();
    let exec = rt.executable_create().unwrap();
    assert!(rt.executable_load_agent_code_object(exec, reader).is_err());
    rt.shut_down().unwrap();
}

#[test]
fn init_is_reference_counted() {
    let mut rt = Runtime::new(test_profile()).unwrap();
    assert!(!rt.is_initialized());
    assert_eq!(rt.shut_down().unwrap_err(), RuntimeError::NotInitialized);
    rt.init().unwrap();
    rt.init().unwrap();
    rt.shut_down().unwrap();
    assert!(rt.is_initialized());
    let agent = gpu_agent(&mut rt);
    assert_eq!(rt.agent_get_info(agent, AgentInfoAttr::Device).unwrap(), AgentInfoValue::Device(AgentKind::Gpu));
    rt.shut_down().unwrap();
    assert!(!rt.is_initialized());
    assert_eq!(rt.signal_create(0).unwrap_err(), RuntimeError::NotInitialized);
}

#[test]
fn invalid_profile_is_refused() {
    let mut p = test_profile();
    p.schema_version = 2;
    assert!(Runtime::new(p).is_err());
}

#[test]
fn region_and_pool_info_answers() {
    let mut rt = Runtime::new(test_profile()).unwrap();
    rt.init().unwrap();
    let agent = gpu_agent(&mut rt);
    let fine = region(&rt, agent, MemoryViewKind::RegionFineKernarg);
    assert_eq!(rt.region_get_info(fine, RegionInfoAttr::Size).unwrap(), RegionInfoValue::Size(SOFTGPU_POOL_BYTES));
    assert_eq!(
        rt.region_get_info(fine, RegionInfoAttr::AllocMaxSize).unwrap(),
        RegionInfoValue::AllocMaxSize(SOFTGPU_MAX_ALLOC_BYTES)
    );
    assert_eq!(rt.region_get_info(fine, RegionInfoAttr::GlobalFlags).unwrap(), RegionInfoValue::GlobalFlags(3));
    let mut pool = PackedHandle::invalid();
    rt.iterate_pools(agent, |space| {
        if space.kind == MemoryViewKind::PoolFineHost {
            pool = space.handle;
        }
        Ok(())
    })
    .unwrap();
    assert_eq!(rt.pool_get_info(pool, PoolInfoAttr::Location).unwrap(), PoolInfoValue::Location(AMD_POOL_LOCATION_CPU));
    assert_eq!(rt.pool_get_info(pool, PoolInfoAttr::AccessibleByAll).unwrap(), PoolInfoValue::AccessibleByAll(true));
    assert_eq!(rt.pool_get_info(fine, PoolInfoAttr::Size).unwrap_err(), RuntimeError::InvalidPool);
    assert_eq!(rt.region_get_info(pool, RegionInfoAttr::Size).unwrap_err(), RuntimeError::InvalidRegion);
    assert_eq!(rt.agent_memory_pool_access(agent, pool).unwrap(), 1);
    assert_eq!(rt.agent_memory_pool_access(agent, fine).unwrap_err(), RuntimeError::InvalidPool);
    assert!(rt.agents_allow_access(&[agent], 0).is_ok());
    assert_eq!(rt.agents_allow_access(&[agent, pool], 0).unwrap_err(), RuntimeError::InvalidAgent);
    rt.shut_down().unwrap();
}

#[test]
fn memory_copy_moves_bytes_between_allocations() {
    let mut rt = Runtime::new(test_profile()).unwrap();
    rt.init().unwrap();
    let agent = gpu_agent(&mut rt);
    let coarse = region(&rt, agent, MemoryViewKind::RegionCoarse);
    let a = rt.memory_allocate(coarse, 16).unwrap();
    let b = rt.memory_allocate(coarse, 16).unwrap();
    rt.memory_write(a, &[1, 2, 3, 4]).unwrap();
    rt.memory_copy(b + 4, a, 4).unwrap();
    assert_eq!(rt.memory_read(b, 8).unwrap(), vec![0, 0, 0, 0, 1, 2, 3, 4]);
    assert_eq!(rt.memory_copy(0, a, 4).unwrap_err(), RuntimeError::InvalidArgument);
    assert_eq!(rt.memory_copy(b, 0xDEAD_0000, 4).unwrap_err(), RuntimeError::InvalidArgument);
    let meta = rt.allocation_lookup(a).unwrap();
    assert_eq!(meta.ptr, a);
    assert_eq!(meta.size, SOFTGPU_ALLOC_GRANULE);
    assert_eq!(rt.allocation_lookup(a + 1).unwrap_err(), RuntimeError::InvalidArgument);
    assert_eq!(rt.memory_free(a + 1).unwrap_err(), RuntimeError::InvalidArgument);
    assert_eq!(rt.memory_allocate(coarse, 0).unwrap_err(), RuntimeError::InvalidArgument);
    assert_eq!(
        rt.memory_allocate(coarse, SOFTGPU_MAX_ALLOC_BYTES + 1).unwrap_err(),
        RuntimeError::InvalidAllocation
    );
    assert_eq!(rt.memory_allocate(agent, 16).unwrap_err(), RuntimeError::InvalidArgument);
    rt.shut_down().unwrap();
}

#[test]
fn executable_lifecycle_and_symbols() {
    let mut rt = Runtime::new(test_profile()).unwrap();
    let bytes = fixture_tiny_add_with_text();
    let reader = rt.code_object_reader_create_from_memory(&bytes).unwrap();
    assert_eq!(rt.code_object_reader_create_from_memory(&[]).unwrap_err(), RuntimeError::InvalidArgument);
    let exec = rt.executable_create().unwrap();
    assert_eq!(rt.executable_freeze(exec).unwrap_err(), RuntimeError::InvalidArgument);
    assert_eq!(rt.executable_get_symbol_by_name(exec, "tiny_add").unwrap_err(), RuntimeError::InvalidArgument);
    rt.executable_load_agent_code_object(exec, reader).unwrap();
    assert_eq!(rt.executable_is_frozen(exec), Ok(false));
    rt.executable_freeze(exec).unwrap();
    assert_eq!(rt.executable_is_frozen(exec), Ok(true));
    assert_eq!(rt.executable_load_agent_code_object(exec, reader).unwrap_err(), RuntimeError::InvalidArgument);
    let sym = rt.executable_get_symbol_by_name(exec, "tiny_add").unwrap();
    assert_eq!(rt.executable_get_symbol_by_name(exec, "nope").unwrap_err(), RuntimeError::InvalidArgument);
    let info = rt.executable_symbol_info(sym).unwrap();
    assert_eq!(info.name, "tiny_add");
    assert!(info.kernarg_segment_align >= 1);
    let kid = rt.executable_symbol_kernel_object(sym).unwrap();
    assert!(rt.lookup_isa_kernel(kid).is_some());
    rt.executable_destroy(exec).unwrap();
    assert!(rt.lookup_isa_kernel(kid).is_none());
    assert_eq!(rt.executable_symbol_kernel_object(sym).unwrap_err(), RuntimeError::InvalidArgument);
    assert_eq!(rt.executable_destroy(exec).unwrap_err(), RuntimeError::InvalidArgument);
    rt.code_object_reader_destroy(reader).unwrap();
    assert_eq!(rt.code_object_reader_destroy(reader).unwrap_err(), RuntimeError::InvalidArgument);
}

#[test]
fn register_kernel_rejects_empty_code() {
    let mut rt = Runtime::new(test_profile()).unwrap();
    assert_eq!(rt.register_isa_kernel("empty", Vec::new()).unwrap_err(), RuntimeError::InvalidArgument);
    let id = rt.register_isa_kernel("k", vec![0, 0, 0x81, 0xbf]).unwrap();
    let k = rt.lookup_isa_kernel(id).unwrap();
    assert_eq!(k.name, "k");
    assert_eq!(k.kernarg_segment_size, 0);
    let next = rt.register_builtin_tiny_add().unwrap();
    assert_eq!(next, id + 1);
    assert_eq!(rt.lookup_isa_kernel(next).unwrap().kernarg_segment_size, 16);
}

#[test]
fn doorbell_cannot_be_destroyed_alone_and_queue_destroy_retires_it() {
    let mut rt = Runtime::new(test_profile()).unwrap();
    rt.init().unwrap();
    let agent = gpu_agent(&mut rt);
    let q = rt.queue_create(agent, SOFTGPU_QUEUE_MIN_SIZE, QUEUE_TYPE_MULTI).unwrap();
    let abi = rt.queue_abi(q).unwrap();
    assert_eq!(abi.size, SOFTGPU_QUEUE_MIN_SIZE);
    assert_eq!(abi.features, QUEUE_FEATURE_KERNEL_DISPATCH);
    let doorbell = PackedHandle::from_raw(abi.doorbell_signal);
    assert_eq!(rt.signal_destroy(doorbell).unwrap_err(), RuntimeError::InvalidArgument);
    rt.queue_destroy(q).unwrap();
    assert_eq!(rt.signal_load(doorbell).unwrap_err(), RuntimeError::InvalidSignal);
    assert_eq!(rt.queue_abi(q).unwrap_err(), RuntimeError::InvalidQueue);
    assert_eq!(rt.queue_destroy(q).unwrap_err(), RuntimeError::InvalidQueue);
    rt.shut_down().unwrap();
}

#[test]
fn queue_observe_reports_still_invalid_packets() {
    let mut rt = Runtime::new(test_profile()).unwrap();
    rt.init().unwrap();
    let agent = gpu_agent(&mut rt);
    let q = rt.queue_create(agent, SOFTGPU_QUEUE_MIN_SIZE, QUEUE_TYPE_MULTI).unwrap();
    rt.queue_store_write_index(q, 1).unwrap();
    match rt.queue_observe(q).unwrap_err() {
        RuntimeError::Internal(detail) => assert_eq!(detail, "StillInvalid { packet_index: 0 }"),
        other => panic!("unexpected {other:?}"),
    }
    let pkt = golden_kernel_dispatch_1d(64, 256, 0x1000, 0, 0);
    assert!(rt.queue_write_packet(q, 0, &pkt).unwrap());
    let obs = rt.queue_observe(q).unwrap();
    assert_eq!(obs.len(), 1);
    assert_eq!(obs[0].packet_index, 0);
    assert_eq!(rt.queue_observe(q).unwrap().len(), 0);
    rt.shut_down().unwrap();
}

#[test]
fn signal_wait_conditions() {
    let mut rt = Runtime::new(test_profile()).unwrap();
    rt.init().unwrap();
    let s = rt.signal_create(5).unwrap();
    assert_eq!(rt.signal_wait(s, 0, 5, u64::MAX, 0).unwrap(), SignalWaitOutcome::Satisfied(5));
    assert_eq!(rt.signal_wait(s, 2, 9, 10, 0).unwrap(), SignalWaitOutcome::Satisfied(5));
    assert_eq!(rt.signal_wait(s, 3, 9, 10, 0).unwrap(), SignalWaitOutcome::TimedOut(5));
    assert_eq!(rt.signal_wait(s, 9, 9, 10, 0).unwrap_err(), RuntimeError::InvalidArgument);
    rt.signal_store(s, 9).unwrap();
    assert_eq!(rt.signal_load(s).unwrap(), 9);
    assert_eq!(rt.signal_arc(s).unwrap().value, 9);
    rt.shut_down().unwrap();
}

#[test]
fn holder_install_and_with_runtime() {
    let mut holder: Option<Runtime> = None;
    assert_eq!(with_runtime(&mut holder, |rt| rt.is_initialized()).unwrap_err(), RuntimeError::NotInitialized);
    install_runtime(&mut holder, test_profile()).unwrap();
    with_runtime(&mut holder, |rt| rt.init()).unwrap().unwrap();
    assert!(install_runtime(&mut holder, test_profile()).is_err());
    with_runtime(&mut holder, |rt| rt.shut_down()).unwrap().unwrap();
    install_runtime(&mut holder, profile_named("other", "Other GPU", FidelityLevel::Abi)).unwrap();
    assert_eq!(with_runtime(&mut holder, |rt| rt.profile().profile_id.clone()).unwrap(), "other");
}

#[test]
fn unsupported_calls_are_traced() {
    let mut rt = Runtime::new(test_profile()).unwrap();
    rt.record_unsupported("hsa_foo", "not here");
    assert!(rt.trace_snapshot().iter().any(|e| matches!(
        e,
        TraceEvent::Unsupported { api, detail, .. } if api == "hsa_foo" && detail == "not here"
    )));
    assert_eq!(rt.max_fidelity(), FidelityLevel::Abi);
    assert_eq!(RuntimeError::OutOfResources.as_str(), "out_of_resources");
    assert_eq!(RuntimeError::Internal("x".into()).as_str(), "internal");
}

#[test]
fn hsa_codes_and_answers() {
    assert_eq!(map_runtime_error(&RuntimeError::NotInitialized), HSA_STATUS_ERROR_NOT_INITIALIZED);
    assert_eq!(map_runtime_error(&RuntimeError::InvalidAgent), HSA_STATUS_ERROR_INVALID_AGENT);
    assert_eq!(map_runtime_error(&RuntimeError::UnsupportedAttribute), HSA_STATUS_ERROR_INVALID_ARGUMENT);
    assert_eq!(map_runtime_error(&RuntimeError::Internal("x".into())), HSA_STATUS_ERROR);
    assert_eq!(map_attr(HSA_AGENT_INFO_NAME), Some(AgentInfoAttr::Name));
    assert_eq!(map_attr(HSA_AGENT_INFO_DEVICE), Some(AgentInfoAttr::Device));
    assert_eq!(map_attr(99), None);
    let long = [b'a'; 70];
    let s = c_string64(&long);
    assert_eq!(s.len(), 64);
    assert_eq!(s[62], b'a');
    assert_eq!(s[63], 0);
    assert_eq!(&c_string64(b"GPU")[..4], b"GPU\0");
    assert_eq!(system_answer_bytes(HSA_SYSTEM_INFO_VERSION_MINOR, 0), Some(vec![2, 0]));
    assert_eq!(system_answer_bytes(HSA_SYSTEM_INFO_TIMESTAMP, 0x0102), Some(vec![2, 1, 0, 0, 0, 0, 0, 0]));
    assert_eq!(system_answer_bytes(HSA_SYSTEM_INFO_EXTENSIONS, 0), Some(vec![0; 128]));
    assert_eq!(system_answer_bytes(42, 0), None);
    assert_eq!(agent_answer_bytes(&AgentInfoValue::Device(AgentKind::Gpu)), vec![1, 0, 0, 0]);
    assert_eq!(agent_answer_bytes(&AgentInfoValue::U16(2)), vec![2, 0]);
    assert_eq!(agent_answer_bytes(&AgentInfoValue::Name("Test GPU".into())).len(), 64);
}

#[test]
fn handle_describes_itself() {
    let h = PackedHandle::pack(HandleKind::Agent, 7, 3);
    assert_eq!(h.describe(), format!("PackedHandle {{ kind: agent, gen: 7, index: 3, raw: {:#x} }}", h.raw()));
    assert_eq!(PackedHandle::from_raw(0x42).describe(), "PackedHandle { invalid_or_unknown: 0x42 }");
}
