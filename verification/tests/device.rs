use softgpu::device::agent::{AgentInfoAttr, AgentKind, VirtualAgent};
use softgpu::device::aql::{
    golden_kernel_dispatch_1d, parse_barrier_minimal, parse_kernel_dispatch, parse_supported_packet, replay_dispatch,
    AqlParseError, KernargClass, PacketType, PACKET_TYPE_AGENT_DISPATCH,
};
use softgpu::device::error::{Error, ErrorCategory};
use softgpu::device::executable::{index_symbols, parse_agent_kernels, ExecutableSymbol};
use softgpu::device::fidelity::FidelityLevel;
use softgpu::device::handle::{HandleKind, PackedHandle};
use softgpu::device::memory::{
    AllocError, MemorySpace, MemoryViewKind, SoftGpuAllocator, SOFTGPU_ALLOC_ALIGNMENT, SOFTGPU_ALLOC_GRANULE,
    SOFTGPU_MAX_ALLOC_BYTES, SOFTGPU_POOL_BYTES,
};
use softgpu::device::profile::{
    AnalyticalPerformanceParams, CapabilityProvenance, DeviceProfile, ProfileField, ProfileIdentity, ResourceLimits,
    SupportState,
};
use softgpu::device::queue::{
    init_packet_buffer, is_power_of_two, PacketValidateError, SoftGpuQueue, AQL_PACKET_BYTES,
    PACKET_TYPE_INVALID, PACKET_TYPE_KERNEL_DISPATCH, SOFTGPU_QUEUE_MIN_SIZE,
};
use softgpu::device::signal::{SignalCondition, SignalWaitOutcome, SoftGpuSignal};
use softgpu::device::trace::{TraceEvent, TraceLog, TraceSink};
use softgpu::code_object::fixture::{fixture_tiny_add_gfx1201, fixture_tiny_add_with_text};
use softgpu::code_object::load::LaunchAbi;

#[test]
fn pack_round_trip() {
    let h = PackedHandle::pack(HandleKind::Agent, 7, 3);
    assert_eq!(h.kind(), Some(HandleKind::Agent));
    assert_eq!(h.generation(), 7);
    assert_eq!(h.index(), 3);
    assert_eq!(PackedHandle::from_raw(h.raw()), h);
}

#[test]
fn generation_is_masked_to_24_bits() {
    let h = PackedHandle::pack(HandleKind::Agent, 0x01FF_FFFF, 1);
    assert_eq!(h.generation(), 0x00FF_FFFF);
}

#[test]
fn zero_is_invalid() {
    assert!(PackedHandle::invalid().is_invalid());
    assert!(PackedHandle::from_raw(0).kind().is_none());
}

#[test]
fn handle_kinds_are_distinct() {
    let a = PackedHandle::pack(HandleKind::Signal, 2, 9);
    let b = PackedHandle::pack(HandleKind::Queue, 2, 9);
    assert_ne!(a, b);
    assert_eq!(a.raw() >> 56, 4);
    assert_eq!(HandleKind::from_u8(3), Some(HandleKind::MemoryPool));
    assert_eq!(HandleKind::from_u8(9), None);
    assert_eq!(HandleKind::Region.as_str(), "region");
}

#[test]
fn diagnostic_includes_category_and_remediation() {
    let err = Error::new(ErrorCategory::Unsupported, "queues not implemented in phase 0")
        .with_remediation("wait for phase 3; see docs/status.md");
    let text = err.format_diagnostic();
    assert!(text.contains("error[unsupported]"));
    assert!(text.contains("queues not implemented"));
    assert!(text.contains("phase 3"));
    assert_eq!(err.category(), ErrorCategory::Unsupported);
    assert!(err.message().contains("queues"));
    assert!(err.remediation().unwrap().contains("phase 3"));
    assert_eq!(err.format_diagnostic(), text);
}

#[test]
fn categories_are_stable() {
    for (cat, id) in [
        (ErrorCategory::Config, "config"),
        (ErrorCategory::Profile, "profile"),
        (ErrorCategory::Unsupported, "unsupported"),
        (ErrorCategory::Validation, "validation"),
        (ErrorCategory::Internal, "internal"),
        (ErrorCategory::Io, "io"),
    ] {
        assert_eq!(cat.as_str(), id);
    }
    assert_eq!(Error::new(ErrorCategory::Io, "x").format_diagnostic(), "error[io]: x");
}

fn generic_profile() -> DeviceProfile {
    DeviceProfile {
        schema_version: 1,
        profile_id: "softgpu-generic".into(),
        profile_revision: "0".into(),
        identity: ProfileIdentity {
            vendor: "SoftGPU".into(),
            product_name: "Generic Test Device".into(),
            architecture_family: "softgpu-abstract".into(),
            llvm_target: ProfileField::unknown(),
        },
        max_fidelity: FidelityLevel::Abi,
        conformance_allowed: false,
        resource_limits: ResourceLimits::default(),
        analytical_performance: AnalyticalPerformanceParams::default(),
        quirks: vec![],
    }
}

#[test]
fn valid_generic_profile_passes() {
    generic_profile().validate().unwrap();
}

#[test]
fn wrong_schema_version_fails() {
    let mut p = generic_profile();
    p.schema_version = 99;
    let err = p.validate().unwrap_err();
    assert_eq!(err.category(), ErrorCategory::Profile);
    assert!(err.message().contains("schema_version"));
}

#[test]
fn conformance_forbidden_with_unknown_limits() {
    let mut p = generic_profile();
    p.conformance_allowed = true;
    p.identity.llvm_target = ProfileField::verified("gfx1201".into(), "docs/sources.md#llvm-amdgpu");
    let err = p.validate().unwrap_err();
    assert!(err.message().contains("conformance_allowed"));
}

#[test]
fn empty_llvm_target_value_rejected() {
    let mut p = generic_profile();
    p.identity.llvm_target = ProfileField {
        value: Some("".into()),
        provenance: CapabilityProvenance::Provisional,
        source_ref: None,
        notes: Some("bad".into()),
    };
    let err = p.validate().unwrap_err();
    assert!(err.message().contains("llvm_target"));
}

#[test]
fn blank_identity_and_provenance_labels() {
    let mut p = generic_profile();
    p.identity.vendor = "   ".into();
    assert!(p.validate().is_err());
    assert!(CapabilityProvenance::Observed.allows_conformance());
    assert!(!CapabilityProvenance::Inferred.allows_conformance());
    assert_eq!(SupportState::VerifiedUnit.as_str(), "verified-unit");
    let f: ProfileField<u32> = ProfileField::provisional(4, "stand-in");
    assert_eq!(f.value, Some(4));
    assert_eq!(FidelityLevel::ArchitecturalIsa.as_str(), "architectural-isa");
}

#[test]
fn gpu_agent_truncates_names_and_claims_no_features() {
    let mut profile = generic_profile();
    profile.profile_id = "amd-radeon-ai-pro-r9700-gfx1201".into();
    profile.identity.vendor = "AMD".into();
    profile.identity.product_name = "Radeon AI PRO R9700".into();
    profile.identity.architecture_family = "RDNA 4".into();
    profile.identity.llvm_target =
        ProfileField::verified("gfx1201".into(), "docs/sources.md#rocm-compatibility-r9700-gfx1201");
    let agent = VirtualAgent::gpu_from_profile(PackedHandle::pack(HandleKind::Agent, 1, 0), &profile);
    assert_eq!(agent.kind, AgentKind::Gpu);
    assert_eq!(agent.feature_mask, 0);
    assert_eq!(agent.name, "Radeon AI PRO R9700");
    assert_eq!(agent.vendor_name, "AMD");
    profile.identity.product_name = "x".repeat(100);
    let agent = VirtualAgent::gpu_from_profile(PackedHandle::pack(HandleKind::Agent, 1, 0), &profile);
    assert_eq!(agent.name.len(), 63);
    assert_eq!(AgentInfoAttr::VendorName.as_str(), "vendor_name");
    assert_eq!(AgentKind::Cpu.as_str(), "cpu");
}

#[test]
fn golden_parses_and_replays() {
    let bytes = golden_kernel_dispatch_1d(64, 256, 0xABCDu64, 0, 0x1111);
    let d = parse_kernel_dispatch(&bytes, 0, |_| KernargClass::Null).unwrap();
    assert_eq!(d.dimensions, 1);
    assert_eq!(d.workgroup_size, [64, 1, 1]);
    assert_eq!(d.grid_size, [256, 1, 1]);
    assert_eq!(d.kernel_object, 0xABCD);
    assert_eq!(d.completion_signal, 0x1111);
    let replayed = replay_dispatch(&d.captured_bytes, 0).unwrap();
    assert_eq!(replayed.grid_size, d.grid_size);
    assert_eq!(replayed.kernel_object, d.kernel_object);
}

#[test]
fn rejects_zero_workgroup() {
    let mut bytes = golden_kernel_dispatch_1d(0, 256, 1, 0, 0);
    let err = parse_kernel_dispatch(&bytes, 0, |_| KernargClass::Null).unwrap_err();
    assert!(matches!(err, AqlParseError::ZeroWorkgroup { dim: 0 }));
    bytes = golden_kernel_dispatch_1d(64, 32, 1, 0, 0);
    let err = parse_kernel_dispatch(&bytes, 0, |_| KernargClass::Null).unwrap_err();
    assert!(matches!(err, AqlParseError::GridSmallerThanWorkgroup { dim: 0 }));
}

#[test]
fn rejects_invalid_and_unsupported() {
    let mut bytes = [0u8; AQL_PACKET_BYTES];
    bytes[0] = PACKET_TYPE_INVALID as u8;
    assert!(matches!(parse_kernel_dispatch(&bytes, 0, |_| KernargClass::Null), Err(AqlParseError::StillInvalid)));
    bytes[0] = PACKET_TYPE_AGENT_DISPATCH as u8;
    assert!(matches!(
        parse_kernel_dispatch(&bytes, 0, |_| KernargClass::Null),
        Err(AqlParseError::UnsupportedType { .. })
    ));
}

#[test]
fn barriers_and_replay_kernarg_class() {
    let mut bytes = [0u8; AQL_PACKET_BYTES];
    bytes[0] = 3;
    bytes[56] = 0x22;
    let d = parse_barrier_minimal(&bytes, 5).unwrap();
    assert_eq!(d.packet_type, PacketType::BarrierAnd);
    assert_eq!(d.completion_signal, 0x22);
    assert_eq!(d.packet_index, 5);
    let g = golden_kernel_dispatch_1d(32, 64, 7, 0x1000, 0);
    let r = replay_dispatch(&g, 1).unwrap();
    assert_eq!(r.kernarg, KernargClass::ForeignOpaque { addr: 0x1000 });
    let s = parse_supported_packet(&g, 1, |a| KernargClass::SoftGpu { alloc_id: Some(9), addr: a }).unwrap();
    assert_eq!(s.kernarg, KernargClass::SoftGpu { alloc_id: Some(9), addr: 0x1000 });
    assert!(matches!(parse_supported_packet(&g[..10], 1, |_| KernargClass::Null), Err(AqlParseError::WrongLength { got: 10 })));
    let mut two_d = g;
    two_d[2] = 2;
    two_d[20] = 2;
    assert!(matches!(parse_kernel_dispatch(&two_d, 0, |_| KernargClass::Null), Err(AqlParseError::DimConstraint { .. })));
    assert_eq!(PacketType::from_header_type(0x0102), PacketType::KernelDispatch);
    assert_eq!(PacketType::VendorOrUnknown(9).as_u16(), 9);
}

#[test]
fn packet_buffer_marks_invalid() {
    let mut buf = vec![0u8; AQL_PACKET_BYTES * 4];
    init_packet_buffer(&mut buf);
    assert_eq!(buf[0], PACKET_TYPE_INVALID as u8);
    assert_eq!(buf[AQL_PACKET_BYTES], PACKET_TYPE_INVALID as u8);
}

fn test_queue(size: u32) -> SoftGpuQueue {
    SoftGpuQueue::new(
        PackedHandle::pack(HandleKind::Queue, 1, 0),
        PackedHandle::pack(HandleKind::Agent, 1, 0),
        1,
        size,
        PackedHandle::pack(HandleKind::Signal, 1, 0),
    )
}

#[test]
fn observe_packet_exactly_once() {
    let mut q = test_queue(SOFTGPU_QUEUE_MIN_SIZE);
    q.write_packet_type(0, PACKET_TYPE_KERNEL_DISPATCH);
    q.store_write_index(1);
    let first = q.observe_packets().unwrap();
    assert_eq!(first.len(), 1);
    assert_eq!(first[0].packet_index, 0);
    assert_eq!(q.observed_count(), 1);
    let second = q.observe_packets().unwrap();
    assert!(second.is_empty());
    assert_eq!(q.observed_count(), 1);
}

#[test]
fn wraparound_indexes_observe() {
    let mut q = test_queue(SOFTGPU_QUEUE_MIN_SIZE);
    let size = u64::from(SOFTGPU_QUEUE_MIN_SIZE);
    for i in 0..size {
        q.write_packet_type(i, PACKET_TYPE_KERNEL_DISPATCH);
    }
    q.store_write_index(size);
    let obs = q.observe_packets().unwrap();
    assert_eq!(obs.len(), size as usize);
    q.write_packet_type(size, PACKET_TYPE_KERNEL_DISPATCH);
    q.store_write_index(size + 1);
    let more = q.observe_packets().unwrap();
    assert_eq!(more.len(), 1);
    assert_eq!(more[0].packet_index, size);
}

#[test]
fn invalid_packet_fails_closed() {
    let mut q = test_queue(SOFTGPU_QUEUE_MIN_SIZE);
    q.store_write_index(1);
    let err = q.observe_packets().unwrap_err();
    assert!(matches!(err, PacketValidateError::StillInvalid { packet_index: 0 }));
}

#[test]
fn queue_indexes_and_doorbells() {
    let mut q = test_queue(64);
    assert_eq!(q.size_packets(), 64);
    q.store_read_index(3);
    assert_eq!(q.read_index(), 3);
    q.note_doorbell_store();
    q.note_doorbell_store();
    assert_eq!(q.doorbell_store_count(), 2);
    q.write_packet_type(0, 0x77);
    q.store_write_index(1);
    assert!(matches!(q.observe_packets(), Err(PacketValidateError::UnsupportedType { packet_index: 0, packet_type: 0x77 })));
    assert_eq!(q.observed_through(), 0);
    assert!(is_power_of_two(64));
    assert!(!is_power_of_two(0));
    assert!(!is_power_of_two(96));
}

#[test]
fn ring_drops_oldest() {
    let mut log = TraceLog::new(2);
    log.record(TraceEvent::Unsupported { seq: 1, api: "a".into(), detail: "1".into() });
    log.record(TraceEvent::Unsupported { seq: 2, api: "b".into(), detail: "2".into() });
    log.record(TraceEvent::Unsupported { seq: 3, api: "c".into(), detail: "3".into() });
    assert_eq!(log.events().len(), 2);
    match &log.events()[0] {
        TraceEvent::Unsupported { api, .. } => assert_eq!(api, "b"),
        _ => panic!("unexpected"),
    }
}

#[test]
fn trace_seq_and_zero_capacity() {
    let mut log = TraceLog::new(0);
    assert_eq!(log.next_seq(), 1);
    assert_eq!(log.next_seq(), 2);
    log.record(TraceEvent::SignalDestroy { seq: 1, signal_handle: 7 });
    log.record(TraceEvent::SignalDestroy { seq: 2, signal_handle: 8 });
    assert_eq!(log.events().len(), 1);
    assert_eq!(TraceLog::fidelity_label(FidelityLevel::Abi), "abi");
}

#[test]
fn wait_eq_returns_when_satisfied() {
    let mut sig = SoftGpuSignal::new(PackedHandle::pack(HandleKind::Signal, 1, 0), 0);
    sig.store(7);
    match sig.wait(SignalCondition::Eq, 7, 1_000_000_000, 1) {
        SignalWaitOutcome::Satisfied(v) => assert_eq!(v, 7),
        other => panic!("unexpected {other:?}"),
    }
}

#[test]
fn wait_times_out() {
    let sig = SoftGpuSignal::new(PackedHandle::pack(HandleKind::Signal, 1, 0), 0);
    match sig.wait(SignalCondition::Eq, 1, 1_000_000, 1) {
        SignalWaitOutcome::TimedOut(v) => assert_eq!(v, 0),
        other => panic!("unexpected {other:?}"),
    }
}

#[test]
fn cancelled_signal_wait_returns_cancelled() {
    let mut sig = SoftGpuSignal::new_doorbell(PackedHandle::pack(HandleKind::Signal, 1, 0), 0, 4);
    sig.cancel();
    assert!(sig.is_cancelled());
    assert_eq!(sig.wait(SignalCondition::Eq, 99, u64::MAX, 1), SignalWaitOutcome::Cancelled(0));
    assert_eq!(SignalCondition::from_u32(3), Some(SignalCondition::Gte));
    assert_eq!(SignalCondition::from_u32(4), None);
    assert!(SignalCondition::Lt.satisfied(1, 2));
    assert!(!SignalCondition::Ne.satisfied(2, 2));
}

#[test]
fn allocate_and_free_round_trip() {
    let mut alloc = SoftGpuAllocator::new(SOFTGPU_POOL_BYTES);
    let space = PackedHandle::pack(HandleKind::Region, 1, 0);
    let ptr = alloc
        .allocate(space, 100, SOFTGPU_ALLOC_GRANULE, SOFTGPU_ALLOC_ALIGNMENT, SOFTGPU_MAX_ALLOC_BYTES)
        .unwrap();
    assert!(ptr != 0);
    let meta = alloc.lookup(ptr).unwrap();
    assert!(meta.host_readable && meta.host_writable);
    assert_eq!(meta.space, space);
    assert!(alloc.contains(ptr));
    assert!(alloc.bytes_in_use() >= 100);
    alloc.free(ptr).unwrap();
    assert_eq!(alloc.bytes_in_use(), 0);
    assert!(alloc.lookup(ptr).is_none());
}

#[test]
fn rejects_oversize_alloc() {
    let mut alloc = SoftGpuAllocator::new(SOFTGPU_POOL_BYTES);
    let space = PackedHandle::pack(HandleKind::MemoryPool, 1, 0);
    let err = alloc
        .allocate(space, SOFTGPU_MAX_ALLOC_BYTES + 1, SOFTGPU_ALLOC_GRANULE, SOFTGPU_ALLOC_ALIGNMENT, SOFTGPU_MAX_ALLOC_BYTES)
        .unwrap_err();
    assert_eq!(err, AllocError::InvalidAllocation);
}

#[test]
fn exhaustion_fails_closed() {
    let mut alloc = SoftGpuAllocator::new(SOFTGPU_ALLOC_GRANULE);
    let space = PackedHandle::pack(HandleKind::Region, 1, 0);
    let ptr = alloc
        .allocate(space, SOFTGPU_ALLOC_GRANULE, SOFTGPU_ALLOC_GRANULE, SOFTGPU_ALLOC_ALIGNMENT, SOFTGPU_MAX_ALLOC_BYTES)
        .unwrap();
    let err = alloc
        .allocate(space, SOFTGPU_ALLOC_GRANULE, SOFTGPU_ALLOC_GRANULE, SOFTGPU_ALLOC_ALIGNMENT, SOFTGPU_MAX_ALLOC_BYTES)
        .unwrap_err();
    assert_eq!(err, AllocError::OutOfResources);
    alloc.free(ptr).unwrap();
}

#[test]
fn free_unknown_pointer_fails() {
    let mut alloc = SoftGpuAllocator::new(SOFTGPU_POOL_BYTES);
    assert_eq!(alloc.free(0x1234).unwrap_err(), AllocError::InvalidArgument);
    assert_eq!(alloc.free(0).unwrap_err(), AllocError::InvalidArgument);
}

#[test]
fn allocator_bytes_and_alignment() {
    let mut alloc = SoftGpuAllocator::new(SOFTGPU_POOL_BYTES);
    let space = PackedHandle::pack(HandleKind::Region, 1, 0);
    let a = alloc.allocate(space, 10, 1, 300, 1 << 20).unwrap();
    assert_eq!(a % 512, 0);
    assert_eq!(alloc.lookup(a).unwrap().size, 10);
    let b = alloc.allocate(space, 4096, 4096, 256, 1 << 20).unwrap();
    assert!(b >= a + 10);
    alloc.write_bytes_at(a + 2, &[9, 8, 7]).unwrap();
    let mut out = [0u8; 5];
    alloc.read_bytes_at(a, &mut out).unwrap();
    assert_eq!(out, [0, 0, 9, 8, 7]);
    assert!(alloc.write_bytes_at(a + 8, &[1, 2, 3]).is_err());
    assert_eq!(alloc.find_covering(b + 100).unwrap().ptr, b);
    assert!(alloc.find_covering(a + 10).is_none());
    assert_eq!(alloc.live_count(), 2);
    assert_eq!(alloc.bytes_in_use(), 10 + 4096);
    alloc.clear_all();
    assert_eq!(alloc.live_count(), 0);
    assert_eq!(alloc.capacity(), SOFTGPU_POOL_BYTES);
    assert_eq!(alloc.allocate(space, 0, 1, 1, 10).unwrap_err(), AllocError::InvalidArgument);
}

#[test]
fn memory_space_kinds() {
    let s = MemorySpace {
        handle: PackedHandle::pack(HandleKind::MemoryPool, 1, 0),
        kind: MemoryViewKind::PoolFineHost,
        agent_handle: PackedHandle::pack(HandleKind::Agent, 1, 0),
        segment: 0,
        global_flags: 3,
        size_bytes: 1,
        alloc_max_size: 1,
        runtime_alloc_allowed: true,
        granule: 4096,
        alignment: 256,
        location: Some(0),
    };
    assert!(s.is_pool());
    assert!(!s.is_region());
}

#[test]
fn executable_parse_and_index() {
    let ks = parse_agent_kernels(&fixture_tiny_add_with_text()).unwrap();
    assert_eq!(ks.len(), 1);
    assert!(parse_agent_kernels(&fixture_tiny_add_gfx1201()).is_err());
    let sym = ExecutableSymbol {
        name: "tiny_add".into(),
        symbol: "tiny_add.kd".into(),
        kernel_object: 1,
        kernarg_segment_size: 16,
        kernarg_segment_align: 8,
        group_segment_size: 0,
        private_segment_size: 0,
        launch_abi: LaunchAbi::SoftGpuCc,
    };
    let idx = index_symbols(&[sym]);
    let keys: Vec<&str> = idx.iter().map(|(k, _)| k.as_str()).collect();
    assert_eq!(keys, ["tiny_add", "tiny_add.kd", "tiny_add"]);
}

#[test]
fn agent_handle_is_64_bit_struct() {
    assert_eq!(std::mem::size_of::<softgpu::device::hsa::hsa_agent_t>(), 8);
    assert_eq!(std::mem::align_of::<softgpu::device::hsa::hsa_agent_t>(), 8);
}

#[test]
fn allocation_beyond_capacity_is_out_of_resources() {
    let mut alloc = SoftGpuAllocator::new(256);
    let space = PackedHandle::pack(HandleKind::Region, 1, 0);
    let err = alloc
        .allocate(space, 300, SOFTGPU_ALLOC_GRANULE, SOFTGPU_ALLOC_ALIGNMENT, SOFTGPU_MAX_ALLOC_BYTES)
        .unwrap_err();
    assert_eq!(err, AllocError::OutOfResources);
    assert_eq!(alloc.bytes_in_use(), 0);
    let ok = alloc.allocate(space, 100, 1, 1, SOFTGPU_MAX_ALLOC_BYTES);
    assert!(ok.is_ok());
}
