//! Decoder for the gfx1201 subset, from llvm-mc observed encodings.
//!
//! Only encodings with an observed golden decode; everything else traps.
use super::error::{IsaError, TrapKind};
use super::inst::{Inst, SBranchCond, SCmpOp, ScalarEnc, Sop1Op, Sop2Op, Vop2Op, VopcOp};
use super::word::{fetch_spec, fetch_trap, is_trap_error};
use vstd::prelude::*;

verus! {

/// `pc + k` wrapping at 32 bits.
pub open spec fn wrap_add(pc: u32, k: u32) -> u32 {
    if pc + k <= u32::MAX {
        (pc + k) as u32
    } else {
        (pc + k - 4294967296) as u32
    }
}

/// SOPP (`bits 31:23 == 0x17F`): op in bits 22:16, `simm16` in 15:0.
pub open spec fn sopp_spec(word: u32, pc: u32) -> Result<Inst, TrapKind> {
    let op = (word >> 16u32) & 0x7fu32;
    let simm16 = (word & 0xffffu32) as u16;
    if op == 0 {
        Ok(Inst::SNop { simm16 })
    } else if op == 3 {
        Ok(Inst::SSleep { simm16 })
    } else if op == 9 {
        Ok(Inst::SWaitCnt { simm16 })
    } else if op == 0x30 {
        Ok(Inst::SEndPgm)
    } else if op == 0x22 {
        Ok(Inst::SCbranch { cond: SBranchCond::Scc1, simm16 })
    } else {
        Err(TrapKind::UnsupportedOpcode { format: "SOPP", op, word, pc })
    }
}

/// SOPC (`bits 31:23 == 0x17E`): op 22:16, `ssrc1` 15:8, `ssrc0` 7:0.
pub open spec fn sopc_spec(word: u32, pc: u32) -> Result<Inst, TrapKind> {
    let op = (word >> 16u32) & 0x7fu32;
    let ssrc1 = ScalarEnc(((word >> 8u32) & 0xffu32) as u8);
    let ssrc0 = ScalarEnc((word & 0xffu32) as u8);
    if op == 6 {
        Ok(Inst::SCmp { op: SCmpOp::EqU32, ssrc0, ssrc1 })
    } else if op == 7 {
        Ok(Inst::SCmp { op: SCmpOp::LgU32, ssrc0, ssrc1 })
    } else {
        Err(TrapKind::UnsupportedOpcode { format: "SOPC", op, word, pc })
    }
}

/// SOP1 (`bits 31:23 == 0x17D`): `sdst` 22:16, op 15:8, `ssrc0` 7:0.
pub open spec fn sop1_spec(word: u32, pc: u32) -> Result<Inst, TrapKind> {
    let op = (word >> 8u32) & 0xffu32;
    let sdst = ScalarEnc(((word >> 16u32) & 0x7fu32) as u8);
    let ssrc0 = ScalarEnc((word & 0xffu32) as u8);
    if op == 0 {
        Ok(Inst::Sop1 { op: Sop1Op::MovB32, sdst, ssrc0 })
    } else {
        Err(TrapKind::UnsupportedOpcode { format: "SOP1", op, word, pc })
    }
}

/// SOP2 (`bits 31:30 == 0b10`): op 29:23, `sdst` 22:16, `ssrc1` 15:8, `ssrc0` 7:0.
pub open spec fn sop2_spec(word: u32, pc: u32) -> Result<Inst, TrapKind> {
    let op = (word >> 23u32) & 0x7fu32;
    let sdst = ScalarEnc(((word >> 16u32) & 0x7fu32) as u8);
    let ssrc1 = ScalarEnc(((word >> 8u32) & 0xffu32) as u8);
    let ssrc0 = ScalarEnc((word & 0xffu32) as u8);
    if op == 0 {
        Ok(Inst::Sop2 { op: Sop2Op::AddCoU32, sdst, ssrc0, ssrc1 })
    } else {
        Err(TrapKind::UnsupportedOpcode { format: "SOP2", op, word, pc })
    }
}

/// VOP2 e32: op 30:25, `vdst` 24:17, `src1` 16:9, `src0` 8:0.
pub open spec fn vop2_spec(word: u32, pc: u32) -> Result<Inst, TrapKind> {
    let op = (word >> 25u32) & 0x3fu32;
    let src0_enc = (word & 0x1ffu32) as u16;
    let src1 = ((word >> 9u32) & 0xffu32) as u8;
    let vdst = ((word >> 17u32) & 0xffu32) as u8;
    if op == 0x18 {
        Ok(Inst::Vop2 { op: Vop2Op::LshlRevB32, vdst, src0_enc, src1, size: 4 })
    } else if op == 0x25 {
        Ok(Inst::Vop2 { op: Vop2Op::AddNcU32, vdst, src0_enc, src1, size: 4 })
    } else if op == 0x13 {
        Ok(Inst::Vop2 { op: Vop2Op::MinU32, vdst, src0_enc, src1, size: 4 })
    } else if op == 0x01 {
        Ok(Inst::Vop2 { op: Vop2Op::CndmaskB32, vdst, src0_enc, src1, size: 4 })
    } else {
        Err(TrapKind::UnsupportedOpcode { format: "VOP2", op, word, pc })
    }
}

/// VOPC e32 (`bits 31:25 == 0x3e`): op 24:17, `vsrc1` 16:9, `src0` 8:0.
pub open spec fn vopc_spec(word: u32, pc: u32) -> Result<Inst, TrapKind> {
    let op = (word >> 17u32) & 0xffu32;
    let src0_enc = (word & 0x1ffu32) as u16;
    let src1 = ((word >> 9u32) & 0xffu32) as u8;
    if op == 0x49 {
        Ok(Inst::Vopc { op: VopcOp::LtU32, src0_enc, src1, size: 4 })
    } else if op == 0x4a {
        Ok(Inst::Vopc { op: VopcOp::EqU32, src0_enc, src1, size: 4 })
    } else if op == 0x4b {
        Ok(Inst::Vopc { op: VopcOp::LeU32, src0_enc, src1, size: 4 })
    } else if op == 0x4c {
        Ok(Inst::Vopc { op: VopcOp::GtU32, src0_enc, src1, size: 4 })
    } else if op == 0x4d {
        Ok(Inst::Vopc { op: VopcOp::NeU32, src0_enc, src1, size: 4 })
    } else if op == 0x4e {
        Ok(Inst::Vopc { op: VopcOp::GeU32, src0_enc, src1, size: 4 })
    } else {
        Err(TrapKind::UnsupportedOpcode { format: "VOPC", op, word, pc })
    }
}

/// Decoding of a single word (scalar forms and single-word VOP2).
pub open spec fn decode_word_spec(word: u32, pc: u32) -> Result<Inst, TrapKind> {
    let enc9 = word >> 23u32;
    if enc9 == 0x17f {
        sopp_spec(word, pc)
    } else if enc9 == 0x17e {
        sopc_spec(word, pc)
    } else if enc9 == 0x17d {
        sop1_spec(word, pc)
    } else if word >> 30u32 == 2 {
        sop2_spec(word, pc)
    } else if word >> 25u32 == 0x3e {
        vopc_spec(word, pc)
    } else if vop2_spec(word, pc) is Ok {
        vop2_spec(word, pc)
    } else {
        Err(TrapKind::UnsupportedEncoding { word, pc })
    }
}

/// `s_load_b64` (`0xF4` / `0xF8` words): `sbase = 2 * bits 5:0`,
/// `sdst = bits 12:6`, offset in the low 21 bits of the second word.
pub open spec fn smem_spec(code: Seq<u8>, pc: u32, word0: u32) -> Result<Inst, TrapKind> {
    match fetch_spec(code, wrap_add(pc, 4)) {
        Err(_) => Err(TrapKind::FetchOutOfBounds { pc: wrap_add(pc, 4), len: code.len() as usize }),
        Ok(word1) => if word1 >> 24u32 != 0xf8 {
            Err(TrapKind::UnsupportedEncoding { word: word0, pc })
        } else {
            Ok(
                Inst::SLoadB64 {
                    sdst: ((word0 >> 6u32) & 0x7fu32) as u8,
                    sbase: ((word0 & 0x3fu32) * 2) as u8,
                    offset: word1 & 0x1fffffu32,
                    size: 8,
                },
            )
        },
    }
}

/// Three-word GLOBAL forms: load (`op 0x05`) and store (`op 0x06` with bit 15).
pub open spec fn global_spec(code: Seq<u8>, pc: u32, word0: u32) -> Result<Inst, TrapKind> {
    match (fetch_spec(code, wrap_add(pc, 4)), fetch_spec(code, wrap_add(pc, 8))) {
        (Err(_), _) => Err(TrapKind::FetchOutOfBounds { pc: wrap_add(pc, 4), len: code.len() as usize }),
        (_, Err(_)) => Err(TrapKind::FetchOutOfBounds { pc: wrap_add(pc, 8), len: code.len() as usize }),
        (Ok(word1), Ok(word2)) => {
            let op_hi = (word0 >> 16u32) & 0xffu32;
            let saddr = (word0 & 0xffu32) as u8;
            if op_hi == 5 {
                Ok(Inst::GlobalLoadB32 { vdst: (word1 & 0xffu32) as u8, vaddr: (word2 & 0xffu32) as u8, saddr, size: 12 })
            } else if op_hi == 6 && word0 & 0x8000u32 != 0 {
                Ok(
                    Inst::GlobalStoreB32 {
                        vaddr: (word2 & 0xffu32) as u8,
                        vdata: (word1 >> 23u32) as u8,
                        saddr,
                        size: 12,
                    },
                )
            } else {
                Err(TrapKind::UnsupportedOpcode { format: "GLOBAL", op: op_hi, word: word0, pc })
            }
        },
    }
}

/// Decoding of the instruction at byte `pc` (one, two or three words).
pub open spec fn decode_at_spec(code: Seq<u8>, pc: u32) -> Result<Inst, TrapKind> {
    match fetch_spec(code, pc) {
        Err(t) => Err(t),
        Ok(word0) => {
            let enc9 = word0 >> 23u32;
            if enc9 == 0x17f {
                sopp_spec(word0, pc)
            } else if enc9 == 0x17e {
                sopc_spec(word0, pc)
            } else if enc9 == 0x17d {
                sop1_spec(word0, pc)
            } else if word0 >> 30u32 == 2 {
                sop2_spec(word0, pc)
            } else if word0 >> 24u32 == 0xf4 {
                smem_spec(code, pc, word0)
            } else if word0 >> 25u32 == 0x3e {
                vopc_spec(word0, pc)
            } else if word0 >> 31u32 == 0 && vop2_spec(word0, pc) is Ok {
                vop2_spec(word0, pc)
            } else if word0 >> 24u32 == 0xee {
                global_spec(code, pc, word0)
            } else {
                Err(TrapKind::UnsupportedEncoding { word: word0, pc })
            }
        },
    }
}

fn decode_sopp(word: u32, pc: u32) -> (r: Result<Inst, TrapKind>)
    ensures
        r == sopp_spec(word, pc),
{
    let op = (word >> 16u32) & 0x7fu32;
    let simm16 = (word & 0xffffu32) as u16;
    if op == 0 {
        Ok(Inst::SNop { simm16 })
    } else if op == 3 {
        Ok(Inst::SSleep { simm16 })
    } else if op == 9 {
        Ok(Inst::SWaitCnt { simm16 })
    } else if op == 0x30 {
        Ok(Inst::SEndPgm)
    } else if op == 0x22 {
        Ok(Inst::SCbranch { cond: SBranchCond::Scc1, simm16 })
    } else {
        Err(TrapKind::UnsupportedOpcode { format: "SOPP", op, word, pc })
    }
}

fn decode_sopc(word: u32, pc: u32) -> (r: Result<Inst, TrapKind>)
    ensures
        r == sopc_spec(word, pc),
{
    let op = (word >> 16u32) & 0x7fu32;
    let ssrc1 = ScalarEnc(((word >> 8u32) & 0xffu32) as u8);
    let ssrc0 = ScalarEnc((word & 0xffu32) as u8);
    if op == 6 {
        Ok(Inst::SCmp { op: SCmpOp::EqU32, ssrc0, ssrc1 })
    } else if op == 7 {
        Ok(Inst::SCmp { op: SCmpOp::LgU32, ssrc0, ssrc1 })
    } else {
        Err(TrapKind::UnsupportedOpcode { format: "SOPC", op, word, pc })
    }
}

fn decode_sop1(word: u32, pc: u32) -> (r: Result<Inst, TrapKind>)
    ensures
        r == sop1_spec(word, pc),
{
    let op = (word >> 8u32) & 0xffu32;
    let sdst = ScalarEnc(((word >> 16u32) & 0x7fu32) as u8);
    let ssrc0 = ScalarEnc((word & 0xffu32) as u8);
    if op == 0 {
        Ok(Inst::Sop1 { op: Sop1Op::MovB32, sdst, ssrc0 })
    } else {
        Err(TrapKind::UnsupportedOpcode { format: "SOP1", op, word, pc })
    }
}

fn decode_sop2(word: u32, pc: u32) -> (r: Result<Inst, TrapKind>)
    ensures
        r == sop2_spec(word, pc),
{
    let op = (word >> 23u32) & 0x7fu32;
    let sdst = ScalarEnc(((word >> 16u32) & 0x7fu32) as u8);
    let ssrc1 = ScalarEnc(((word >> 8u32) & 0xffu32) as u8);
    let ssrc0 = ScalarEnc((word & 0xffu32) as u8);
    if op == 0 {
        Ok(Inst::Sop2 { op: Sop2Op::AddCoU32, sdst, ssrc0, ssrc1 })
    } else {
        Err(TrapKind::UnsupportedOpcode { format: "SOP2", op, word, pc })
    }
}

fn decode_vop2(word: u32, pc: u32) -> (r: Result<Inst, TrapKind>)
    ensures
        r == vop2_spec(word, pc),
{
    let op = (word >> 25u32) & 0x3fu32;
    let src0_enc = (word & 0x1ffu32) as u16;
    let src1 = ((word >> 9u32) & 0xffu32) as u8;
    let vdst = ((word >> 17u32) & 0xffu32) as u8;
    if op == 0x18 {
        Ok(Inst::Vop2 { op: Vop2Op::LshlRevB32, vdst, src0_enc, src1, size: 4 })
    } else if op == 0x25 {
        Ok(Inst::Vop2 { op: Vop2Op::AddNcU32, vdst, src0_enc, src1, size: 4 })
    } else if op == 0x13 {
        Ok(Inst::Vop2 { op: Vop2Op::MinU32, vdst, src0_enc, src1, size: 4 })
    } else if op == 0x01 {
        Ok(Inst::Vop2 { op: Vop2Op::CndmaskB32, vdst, src0_enc, src1, size: 4 })
    } else {
        Err(TrapKind::UnsupportedOpcode { format: "VOP2", op, word, pc })
    }
}

fn decode_vopc(word: u32, pc: u32) -> (r: Result<Inst, TrapKind>)
    ensures
        r == vopc_spec(word, pc),
{
    let op = (word >> 17u32) & 0xffu32;
    let src0_enc = (word & 0x1ffu32) as u16;
    let src1 = ((word >> 9u32) & 0xffu32) as u8;
    if op == 0x49 {
        Ok(Inst::Vopc { op: VopcOp::LtU32, src0_enc, src1, size: 4 })
    } else if op == 0x4a {
        Ok(Inst::Vopc { op: VopcOp::EqU32, src0_enc, src1, size: 4 })
    } else if op == 0x4b {
        Ok(Inst::Vopc { op: VopcOp::LeU32, src0_enc, src1, size: 4 })
    } else if op == 0x4c {
        Ok(Inst::Vopc { op: VopcOp::GtU32, src0_enc, src1, size: 4 })
    } else if op == 0x4d {
        Ok(Inst::Vopc { op: VopcOp::NeU32, src0_enc, src1, size: 4 })
    } else if op == 0x4e {
        Ok(Inst::Vopc { op: VopcOp::GeU32, src0_enc, src1, size: 4 })
    } else {
        Err(TrapKind::UnsupportedOpcode { format: "VOPC", op, word, pc })
    }
}

fn decode_word_trap(word: u32, pc: u32) -> (r: Result<Inst, TrapKind>)
    ensures
        r == decode_word_spec(word, pc),
{
    let enc9 = word >> 23u32;
    if enc9 == 0x17f {
        return decode_sopp(word, pc);
    }
    if enc9 == 0x17e {
        return decode_sopc(word, pc);
    }
    if enc9 == 0x17d {
        return decode_sop1(word, pc);
    }
    if word >> 30u32 == 2 {
        return decode_sop2(word, pc);
    }
    if word >> 25u32 == 0x3e {
        return decode_vopc(word, pc);
    }
    match decode_vop2(word, pc) {
        Ok(i) => Ok(i),
        Err(_) => Err(TrapKind::UnsupportedEncoding { word, pc }),
    }
}

/// Decode a single already-fetched word (single-word forms only).
pub fn decode_word(word: u32, pc: u32) -> (r: Result<Inst, IsaError>)
    ensures
        match decode_word_spec(word, pc) {
            Ok(i) => r == Ok::<Inst, IsaError>(i),
            Err(t) => r matches Err(e) && is_trap_error(e, t),
        },
{
    match decode_word_trap(word, pc) {
        Ok(i) => Ok(i),
        Err(t) => Err(t.to_error()),
    }
}

fn decode_smem(code: &[u8], pc: u32, word0: u32) -> (r: Result<Inst, TrapKind>)
    ensures
        r == smem_spec(code@, pc, word0),
{
    let pc1 = pc.wrapping_add(4);
    let word1 = match fetch_trap(code, pc1) {
        Ok(w) => w,
        Err(_) => {
            return Err(TrapKind::FetchOutOfBounds { pc: pc1, len: code.len() });
        },
    };
    if word1 >> 24u32 != 0xf8 {
        return Err(TrapKind::UnsupportedEncoding { word: word0, pc });
    }
    assert(word0 & 0x3fu32 <= 0x3fu32) by (bit_vector);
    Ok(
        Inst::SLoadB64 {
            sdst: ((word0 >> 6u32) & 0x7fu32) as u8,
            sbase: ((word0 & 0x3fu32) * 2) as u8,
            offset: word1 & 0x1fffffu32,
            size: 8,
        },
    )
}

fn decode_global(code: &[u8], pc: u32, word0: u32) -> (r: Result<Inst, TrapKind>)
    ensures
        r == global_spec(code@, pc, word0),
{
    let pc1 = pc.wrapping_add(4);
    let pc2 = pc.wrapping_add(8);
    let word1 = match fetch_trap(code, pc1) {
        Ok(w) => w,
        Err(_) => {
            return Err(TrapKind::FetchOutOfBounds { pc: pc1, len: code.len() });
        },
    };
    let word2 = match fetch_trap(code, pc2) {
        Ok(w) => w,
        Err(_) => {
            return Err(TrapKind::FetchOutOfBounds { pc: pc2, len: code.len() });
        },
    };
    let op_hi = (word0 >> 16u32) & 0xffu32;
    let saddr = (word0 & 0xffu32) as u8;
    if op_hi == 5 {
        return Ok(Inst::GlobalLoadB32 { vdst: (word1 & 0xffu32) as u8, vaddr: (word2 & 0xffu32) as u8, saddr, size: 12 });
    }
    if op_hi == 6 && word0 & 0x8000u32 != 0 {
        return Ok(Inst::GlobalStoreB32 { vaddr: (word2 & 0xffu32) as u8, vdata: (word1 >> 23u32) as u8, saddr, size: 12 });
    }
    Err(TrapKind::UnsupportedOpcode { format: "GLOBAL", op: op_hi, word: word0, pc })
}

/// Decode the instruction at `pc`, or the trap that stops it.
pub fn decode_at_trap(code: &[u8], pc: u32) -> (r: Result<Inst, TrapKind>)
    ensures
        r == decode_at_spec(code@, pc),
{
    let word0 = fetch_trap(code, pc)?;
    let enc9 = word0 >> 23u32;
    if enc9 == 0x17f {
        return decode_sopp(word0, pc);
    }
    if enc9 == 0x17e {
        return decode_sopc(word0, pc);
    }
    if enc9 == 0x17d {
        return decode_sop1(word0, pc);
    }
    if word0 >> 30u32 == 2 {
        return decode_sop2(word0, pc);
    }
    if word0 >> 24u32 == 0xf4 {
        return decode_smem(code, pc, word0);
    }
    if word0 >> 25u32 == 0x3e {
        return decode_vopc(word0, pc);
    }
    if word0 >> 31u32 == 0 {
        if let Ok(i) = decode_vop2(word0, pc) {
            return Ok(i);
        }
    }
    if word0 >> 24u32 == 0xee {
        return decode_global(code, pc, word0);
    }
    Err(TrapKind::UnsupportedEncoding { word: word0, pc })
}

/// Decode one instruction at `pc` (may consume 4, 8 or 12 bytes).
pub fn decode_at(code: &[u8], pc: u32) -> (r: Result<Inst, IsaError>)
    ensures
        match decode_at_spec(code@, pc) {
            Ok(i) => r == Ok::<Inst, IsaError>(i),
            Err(t) => r matches Err(e) && is_trap_error(e, t),
        },
{
    match decode_at_trap(code, pc) {
        Ok(i) => Ok(i),
        Err(t) => Err(t.to_error()),
    }
}

} // verus!
