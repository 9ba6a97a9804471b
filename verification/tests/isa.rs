use softgpu::isa::arch::{Arch, WaveSize};
use softgpu::isa::decode::{decode_at, decode_word};
use softgpu::isa::disasm::{disasm_at, disasm_word};
use softgpu::isa::error::{IsaError, IsaErrorKind, TrapKind};
use softgpu::isa::exec::{run, run_salu, step, step_salu, StepOutcome};
use softgpu::isa::inst::{Inst, SBranchCond, ScalarEnc, Sop1Op, Sop2Op};
use softgpu::isa::kernel::{
    clamp64_host_ref, run_clamp64_1d, run_code_1d, run_select_gt50_1d, run_tiny_add_1d, select_gt50_host_ref,
    tiny_add_host_ref, tiny_add_text,
};
use softgpu::isa::mem::{GlobalArena, IsaMemory};
use softgpu::isa::provenance::{supported_families, SUBSET_E2E_TINY_V1, SUBSET_NAME, TARGET_ARCH};
use softgpu::isa::state::{require_gfx1201, MachineState};
use softgpu::isa::word::{fetch_word, parse_hex_word, word_to_le_bytes, words_to_code};

#[test]
fn only_gfx1201() {
    assert_eq!(Arch::parse("gfx1201").unwrap(), Arch::Gfx1201);
    assert!(Arch::parse("gfx1100").is_err());
}

#[test]
fn decode_known_salu_goldens() {
    assert_eq!(decode_word(0xbf80_0000, 0).unwrap(), Inst::SNop { simm16: 0 });
    assert_eq!(decode_word(0xbfb0_0000, 0).unwrap(), Inst::SEndPgm);
}

#[test]
fn decode_tiny_kernel_stream() {
    let code = words_to_code(&[
        0xf400_2002, 0xf800_0000, 0xf400_2082, 0xf800_0008, 0xbf89_0000, 0x3002_0082, 0xee05_0000, 0x0000_0002,
        0x0000_0001, 0xbf89_0000, 0x4a04_0481, 0xee06_8002, 0x0100_0000, 0x0000_0001, 0xbfb0_0000,
    ]);
    let mut pc = 0u32;
    let mut names = Vec::new();
    while (pc as usize) < code.len() {
        let inst = decode_at(&code, pc).unwrap();
        names.push(inst.mnemonic());
        if matches!(inst, Inst::SEndPgm) {
            break;
        }
        pc += inst.size_bytes();
    }
    assert_eq!(
        names,
        [
            "s_load_b64",
            "s_load_b64",
            "s_waitcnt",
            "v_lshlrev_b32_e32",
            "global_load_b32",
            "s_waitcnt",
            "v_add_nc_u32_e32",
            "global_store_b32",
            "s_endpgm",
        ]
    );
}

#[test]
fn matches_golden_asm_strings() {
    assert_eq!(disasm_word(0xbf80_0000, 0).unwrap(), "s_nop 0");
    assert_eq!(disasm_word(0xbfb0_0000, 0).unwrap(), "s_endpgm");
    assert_eq!(disasm_word(0xbe80_0081, 0).unwrap(), "s_mov_b32 s0, 1");
    assert_eq!(disasm_word(0x8000_0201, 0).unwrap(), "s_add_co_u32 s0, s1, s2");
    assert_eq!(disasm_word(0xbf06_0100, 0).unwrap(), "s_cmp_eq_u32 s0, s1");
}

#[test]
fn mov_add_end() {
    let code = words_to_code(&[0xbe80_0081, 0xbe81_0082, 0x8002_0100, 0xbfb0_0000]);
    let mut st = MachineState::new(Arch::Gfx1201, WaveSize::Wave32);
    let n = run_salu(&mut st, &code, 16).unwrap();
    assert_eq!(n, 4);
    assert!(st.halted);
    assert_eq!(st.sgpr[0], 1);
    assert_eq!(st.sgpr[1], 2);
    assert_eq!(st.sgpr[2], 3);
    assert!(!st.scc);
}

#[test]
fn trap_leaves_sgprs() {
    let mut st = MachineState::new(Arch::Gfx1201, WaveSize::Wave32);
    st.sgpr[0] = 42;
    let code = words_to_code(&[0x1234_5678]);
    let mut mem = GlobalArena::new(0, 64);
    let err = step(&mut st, &code, &mut mem).unwrap_err();
    assert!(err.message().contains("unsupported"));
    assert_eq!(st.sgpr[0], 42);
    assert_eq!(st.pc, 0);
}

#[test]
fn inline_constants() {
    let st = MachineState::new(Arch::Gfx1201, WaveSize::Wave32);
    assert_eq!(st.read_scalar(ScalarEnc(0x80), 0).unwrap(), 0);
    assert_eq!(st.read_scalar(ScalarEnc(0x81), 0).unwrap(), 1);
    assert_eq!(st.read_scalar(ScalarEnc(0xc0), 0).unwrap(), 64);
    assert_eq!(st.read_scalar(ScalarEnc(0xc1), 0).unwrap(), u32::MAX);
}

#[test]
fn fetch_roundtrip() {
    let code = words_to_code(&[0xbf80_0000, 0xbe80_0081]);
    assert_eq!(fetch_word(&code, 0).unwrap(), 0xbf80_0000);
    assert_eq!(fetch_word(&code, 4).unwrap(), 0xbe80_0081);
}

#[test]
fn misaligned_and_oob() {
    let code = words_to_code(&[0xbf80_0000]);
    assert!(matches!(fetch_word(&code, 1).unwrap_err().kind(), IsaErrorKind::Trap));
    assert!(matches!(fetch_word(&code, 4).unwrap_err().kind(), IsaErrorKind::Trap));
}

#[test]
fn bitfield_sopp_sop1_sop2() {
    let nop = decode_word(0xbf80_0001, 0).unwrap();
    assert_eq!(nop, Inst::SNop { simm16: 1 });
    let mov = decode_word(0xbe85_0003, 0).unwrap();
    assert_eq!(mov, Inst::Sop1 { op: Sop1Op::MovB32, sdst: ScalarEnc(5), ssrc0: ScalarEnc(3) });
    let add = decode_word(0x8003_0504, 0).unwrap();
    assert_eq!(
        add,
        Inst::Sop2 { op: Sop2Op::AddCoU32, sdst: ScalarEnc(3), ssrc0: ScalarEnc(4), ssrc1: ScalarEnc(5) }
    );
}

#[test]
fn reserved_and_invalid_trap_before_corruption() {
    let mut st = MachineState::new(Arch::Gfx1201, WaveSize::Wave32);
    st.sgpr[3] = 0xdead_beef;
    let code = words_to_code(&[0x1234_5678]);
    assert!(step_salu(&mut st, &code).is_err());
    assert_eq!(st.sgpr[3], 0xdead_beef);
    assert_eq!(st.pc, 0);
    assert!(!st.halted);
    let code = words_to_code(&[0xbf81_0000]);
    let err = step_salu(&mut st, &code).unwrap_err();
    assert!(err.message().contains("SOPP"));
    assert_eq!(st.sgpr[3], 0xdead_beef);
}

#[test]
fn unsupported_operand_traps() {
    let mut st = MachineState::new(Arch::Gfx1201, WaveSize::Wave32);
    let word = 0xbe80_00ff;
    let code = words_to_code(&[word]);
    let err = step_salu(&mut st, &code).unwrap_err();
    assert!(err.message().contains("operand") || err.message().contains("unsupported"));
    assert_eq!(st.sgpr[0], 0);
}

#[test]
fn single_instruction_state_transitions() {
    let mut st = MachineState::new(Arch::Gfx1201, WaveSize::Wave32);
    let code = words_to_code(&[0xbe80_0081]);
    assert_eq!(step_salu(&mut st, &code).unwrap(), StepOutcome::Continued);
    assert_eq!(st.sgpr[0], 1);
    assert_eq!(st.pc, 4);
    st.pc = 0;
    st.sgpr[1] = 0xffff_ffff;
    st.sgpr[2] = 2;
    let code = words_to_code(&[0x8000_0201]);
    step_salu(&mut st, &code).unwrap();
    assert_eq!(st.sgpr[0], 1);
    assert!(st.scc);
}

#[test]
fn fuzz_random_words_never_panic_and_trap_or_decode() {
    let mut st = MachineState::new(Arch::Gfx1201, WaveSize::Wave32);
    let snapshot = st.clone();
    let mut seed = 0xC0FF_EE00u32;
    for _ in 0..4096 {
        seed = seed.wrapping_mul(1664525).wrapping_add(1013904223);
        let word = seed;
        let code = words_to_code(&[word]);
        st = snapshot.clone();
        match step_salu(&mut st, &code) {
            Ok(StepOutcome::Continued) => {
                let inst = decode_word(word, 0).unwrap();
                if !inst.redirects_pc() {
                    assert_eq!(st.pc, 4);
                }
            }
            Ok(StepOutcome::Halted) => {
                assert!(st.halted);
            }
            Err(_) => {
                assert_eq!(st.pc, 0);
                assert_eq!(st.sgpr, snapshot.sgpr);
                assert_eq!(st.scc, snapshot.scc);
            }
        }
        let _ = decode_word(word, 0);
    }
}

#[test]
fn subset_name_and_arch_gate() {
    assert_eq!(SUBSET_NAME, "softgpu-gfx1201-compute-v2");
    assert!(Arch::parse("gfx1201").is_ok());
    assert!(Arch::parse("gfx1030").is_err());
}

#[test]
fn program_mov_add_endpgm() {
    let code = words_to_code(&[0xbe80_0081, 0xbe81_0082, 0x8002_0100, 0xbfb0_0000]);
    let mut st = MachineState::new(Arch::Gfx1201, WaveSize::Wave32);
    let n = run_salu(&mut st, &code, 32).unwrap();
    assert_eq!(n, 4);
    assert_eq!(st.sgpr[2], 3);
    assert!(st.halted);
}

#[test]
fn phase11_kernel_tiny_add_matches_host_reference() {
    assert_eq!(SUBSET_E2E_TINY_V1, "softgpu-gfx1201-e2e-tiny-v1");
    assert_eq!(tiny_add_text().len(), 60);
    let n = 64u32;
    let mut mem = GlobalArena::new(0, 0x4000);
    let kernarg = 0x1000u64;
    let a_addr = 0x2000u64;
    let b_addr = 0x3000u64;
    mem.store_u64(kernarg, a_addr).unwrap();
    mem.store_u64(kernarg + 8, b_addr).unwrap();
    let mut host_a = vec![0i32; n as usize];
    for (i, v) in host_a.iter_mut().enumerate() {
        *v = (i as i32) * 3 - 1;
        mem.store_u32(a_addr + (i as u64) * 4, *v as u32).unwrap();
    }
    let mut host_b = vec![0i32; n as usize];
    tiny_add_host_ref(&host_a, &mut host_b);
    let steps = run_tiny_add_1d(&mut mem, kernarg, n, WaveSize::Wave32).unwrap();
    assert!(steps > 0);
    for (i, expected) in host_b.iter().enumerate() {
        let got = mem.load_u32(b_addr + (i as u64) * 4).unwrap() as i32;
        assert_eq!(got, *expected, "mismatch at i={i}");
    }
}

#[test]
fn unsupported_code_traps() {
    let mut mem = GlobalArena::new(0, 64);
    let code = [0x11, 0x22, 0x33, 0x44];
    let err = run_code_1d(&code, &mut mem, 0, 1, WaveSize::Wave32).unwrap_err();
    assert!(err.message().contains("unsupported") || err.message().contains("Trap"));
}

#[test]
fn subset_is_compute_v2_and_broad() {
    assert_eq!(SUBSET_NAME, "softgpu-gfx1201-compute-v2");
    let fams = supported_families();
    assert!(fams.len() >= 40);
    assert!(fams.iter().any(|f| f.starts_with("SOPC:")));
    assert!(fams.iter().any(|f| f.starts_with("VOPC:")));
    assert!(fams.iter().any(|f| f.starts_with("VOP1:")));
}

#[test]
fn salu_branch_counts_to_five() {
    let code = words_to_code(&[0xbe80_0080, 0xbe81_0085, 0x8000_8100, 0xbf07_0100, 0xbfa2_fffd, 0xbfb0_0000]);
    let mut st = MachineState::new(Arch::Gfx1201, WaveSize::Wave32);
    run_salu(&mut st, &code, 64).unwrap();
    assert_eq!(st.sgpr[0], 5);
    assert!(st.halted);
}

#[test]
fn parse_hex_word_forms() {
    assert_eq!(parse_hex_word("0xbf800000").unwrap(), 0xbf80_0000);
    assert_eq!(parse_hex_word("  BF800000 ").unwrap(), 0xbf80_0000);
    assert_eq!(parse_hex_word("0X1f").unwrap(), 0x1f);
    assert_eq!(parse_hex_word("+ff").unwrap(), 0xff);
    assert!(parse_hex_word("").is_err());
    assert!(parse_hex_word("0x").is_err());
    assert!(parse_hex_word("0x1_0000_0000").is_err());
    assert!(parse_hex_word("100000000").is_err());
    assert_eq!(parse_hex_word("zz").unwrap_err().kind(), IsaErrorKind::Config);
}

#[test]
fn word_bytes_are_little_endian() {
    assert_eq!(word_to_le_bytes(0x1122_3344), [0x44, 0x33, 0x22, 0x11]);
    let code = words_to_code(&[0x1122_3344, 0xaabb_ccdd]);
    assert_eq!(code, vec![0x44, 0x33, 0x22, 0x11, 0xdd, 0xcc, 0xbb, 0xaa]);
}

#[test]
fn trap_messages_and_diagnostic() {
    let e = TrapKind::UnsupportedEncoding { word: 0x1234, pc: 0x10 }.to_error();
    assert_eq!(e.message(), "unsupported encoding word=0x00001234 at pc=0x10");
    assert_eq!(e.kind(), IsaErrorKind::Trap);
    let h = TrapKind::Halted.to_error();
    assert_eq!(h.kind(), IsaErrorKind::Validation);
    let op = TrapKind::UnsupportedOperand { encoding: 0xff, role: "ssrc", pc: 4 }.to_error();
    assert_eq!(op.message(), "unsupported ssrc operand encoding=0xff at pc=0x4");
    let d = IsaError::new(IsaErrorKind::Config, "bad").with_remediation("fix it").format_diagnostic();
    assert_eq!(d, "[Config] bad\n  remediation: fix it");
    assert_eq!(IsaError::new(IsaErrorKind::Trap, "x").format_diagnostic(), "[Trap] x");
}

#[test]
fn wave_size_and_arch_helpers() {
    assert_eq!(WaveSize::Wave32.lanes(), 32);
    assert_eq!(WaveSize::parse(64).unwrap(), WaveSize::Wave64);
    assert_eq!(WaveSize::parse(16).unwrap_err().kind(), IsaErrorKind::Config);
    assert_eq!(Arch::Gfx1201.as_str(), TARGET_ARCH);
    assert!(require_gfx1201(" gfx1201 ").is_ok());
    assert_eq!(require_gfx1201("gfx900").unwrap_err().kind(), IsaErrorKind::Unsupported);
}

#[test]
fn sgpr_pairs_and_lanes() {
    let mut st = MachineState::new(Arch::Gfx1201, WaveSize::Wave64);
    st.write_sgpr_pair(4, 0x1111_2222_3333_4444, 0).unwrap();
    assert_eq!(st.sgpr[4], 0x3333_4444);
    assert_eq!(st.sgpr[5], 0x1111_2222);
    assert_eq!(st.read_sgpr_pair(4, 0).unwrap(), 0x1111_2222_3333_4444);
    assert!(st.read_sgpr_pair(5, 0).is_err());
    assert!(st.write_sgpr_pair(105, 1, 0).is_err());
    assert!(st.write_sgpr(ScalarEnc(106), 1, 0).is_err());
    assert!(st.lane_active(63));
    assert!(!st.lane_active(64));
    st.exec_mask = 1;
    assert!(st.lane_active(0) && !st.lane_active(1));
}

#[test]
fn arena_bytes_and_bounds() {
    let mut mem = GlobalArena::new(0x100, 16);
    assert!(mem.contains(0x100, 16));
    assert!(!mem.contains(0x100, 17));
    assert!(!mem.contains(0xff, 1));
    mem.write_bytes(0x104, &[1, 2, 3]).unwrap();
    let mut out = [0u8; 4];
    mem.read_bytes(0x103, &mut out).unwrap();
    assert_eq!(out, [0, 1, 2, 3]);
    assert!(mem.write_bytes(0x10f, &[1, 2]).is_err());
    assert!(mem.load_u64(0x10c).is_err());
    mem.store_u32(0x108, 0xdead_beef).unwrap();
    assert_eq!(mem.load_u32(0x108).unwrap(), 0xdead_beef);
}

#[test]
fn branch_and_disasm_multiword() {
    let code = words_to_code(&[0xf400_2002, 0xf800_0000]);
    assert_eq!(disasm_at(&code, 0).unwrap(), "s_load_b64 s[0:1], s[4:5], 0x0");
    assert_eq!(disasm_word(0xbfa2_fffd, 0).unwrap(), "s_cbranch_scc1 -3");
    assert_eq!(
        decode_word(0xbfa2_fffd, 0).unwrap(),
        Inst::SCbranch { cond: SBranchCond::Scc1, simm16: 0xfffd }
    );
    let mut st = MachineState::new(Arch::Gfx1201, WaveSize::Wave32);
    st.halted = true;
    assert!(run_salu(&mut st, &words_to_code(&[0xbfb0_0000]), 4).is_err());
    let mut st = MachineState::new(Arch::Gfx1201, WaveSize::Wave32);
    let mut mem = GlobalArena::new(0, 0);
    assert!(run(&mut st, &words_to_code(&[0xbf80_0000]), &mut mem, 3).is_err());
}

#[test]
fn clamp64_matches_host() {
    let n = 64u32;
    let mut mem = GlobalArena::new(0, 0x4000);
    let kernarg = 0x1000u64;
    let a_addr = 0x2000u64;
    let b_addr = 0x3000u64;
    mem.store_u64(kernarg, a_addr).unwrap();
    mem.store_u64(kernarg + 8, b_addr).unwrap();

    let mut host_a = vec![0u32; n as usize];
    for (i, v) in host_a.iter_mut().enumerate() {
        *v = (i as u32) * 7;
        mem.store_u32(a_addr + (i as u64) * 4, *v).unwrap();
    }
    let mut host_b = vec![0u32; n as usize];
    clamp64_host_ref(&host_a, &mut host_b);

    run_clamp64_1d(&mut mem, kernarg, n, WaveSize::Wave32).unwrap();
    for (i, expected) in host_b.iter().enumerate() {
        let got = mem.load_u32(b_addr + (i as u64) * 4).unwrap();
        assert_eq!(got, *expected, "clamp mismatch at i={i}");
    }
}

#[test]
fn select_gt50_matches_host() {
    let n = 64u32;
    let mut mem = GlobalArena::new(0, 0x4000);
    let kernarg = 0x1000u64;
    let a_addr = 0x2000u64;
    let b_addr = 0x3000u64;
    mem.store_u64(kernarg, a_addr).unwrap();
    mem.store_u64(kernarg + 8, b_addr).unwrap();

    let mut host_a = vec![0u32; n as usize];
    for (i, v) in host_a.iter_mut().enumerate() {
        *v = (i as u32) * 3;
        mem.store_u32(a_addr + (i as u64) * 4, *v).unwrap();
    }
    let mut host_b = vec![0u32; n as usize];
    select_gt50_host_ref(&host_a, &mut host_b);

    run_select_gt50_1d(&mut mem, kernarg, n, WaveSize::Wave32).unwrap();
    for (i, expected) in host_b.iter().enumerate() {
        let got = mem.load_u32(b_addr + (i as u64) * 4).unwrap();
        assert_eq!(got, *expected, "select mismatch at i={i}");
    }
}
