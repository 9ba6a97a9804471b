//! Disassembler for the gfx1201 subset.
use super::decode::{decode_at, decode_at_spec, decode_word, decode_word_spec};
use super::error::IsaError;
use super::inst::{mnemonic_spec, Inst, ScalarEnc, Vop2Op};
use super::word::is_trap_error;
use crate::text::{cat, cat_string, dec_chars, dec_i64, dec_u64, hex_chars, hex_u64, owned, signed_dec_chars};
use vstd::prelude::*;

verus! {

/// Assembler text of a source operand encoding.
pub open spec fn src_text(enc: u16) -> Seq<char> {
    if enc < 106 {
        "s"@ + dec_chars(enc as nat)
    } else if 128 <= enc <= 192 {
        dec_chars((enc - 128) as nat)
    } else if enc == 193 {
        "-1"@
    } else if 256 <= enc < 512 {
        "v"@ + dec_chars((enc - 256) as nat)
    } else {
        "/*src:0x"@ + hex_chars(enc as nat) + "*/"@
    }
}

/// Assembler text of a scalar destination.
pub open spec fn dst_text(enc: ScalarEnc) -> Seq<char> {
    "s"@ + dec_chars(enc.0 as nat)
}

/// `v<n>`.
pub open spec fn vreg_text(n: u8) -> Seq<char> {
    "v"@ + dec_chars(n as nat)
}

/// `s[n:n+1]`.
pub open spec fn spair_text(n: u8) -> Seq<char> {
    "s["@ + dec_chars(n as nat) + ":"@ + dec_chars(n as nat + 1) + "]"@
}

/// Assembler text of a decoded instruction.
pub open spec fn inst_text(i: Inst) -> Seq<char> {
    match i {
        Inst::SNop { simm16 } => "s_nop "@ + dec_chars(simm16 as nat),
        Inst::SEndPgm => "s_endpgm"@,
        Inst::SSleep { simm16 } => "s_sleep "@ + dec_chars(simm16 as nat),
        Inst::SWaitCnt { simm16 } => "s_waitcnt "@ + dec_chars(simm16 as nat),
        Inst::SCbranch { simm16, .. } => mnemonic_spec(i) + " "@ + signed_dec_chars((simm16 as i16) as int),
        Inst::SCmp { ssrc0, ssrc1, .. } => mnemonic_spec(i) + " "@ + src_text(ssrc0.0 as u16) + ", "@ + src_text(
            ssrc1.0 as u16,
        ),
        Inst::Sopk { sdst, simm16, .. } => mnemonic_spec(i) + " "@ + dst_text(sdst) + ", 0x"@ + hex_chars(
            simm16 as nat,
        ),
        Inst::Sop1 { sdst, ssrc0, .. } => mnemonic_spec(i) + " "@ + dst_text(sdst) + ", "@ + src_text(ssrc0.0 as u16),
        Inst::Sop2 { sdst, ssrc0, ssrc1, .. } => mnemonic_spec(i) + " "@ + dst_text(sdst) + ", "@ + src_text(
            ssrc0.0 as u16,
        ) + ", "@ + src_text(ssrc1.0 as u16),
        Inst::SLoadB64 { sdst, sbase, offset, .. } => "s_load_b64 "@ + spair_text(sdst) + ", "@ + spair_text(sbase)
            + ", 0x"@ + hex_chars(offset as nat),
        Inst::Vop1 { vdst, src0_enc, .. } => mnemonic_spec(i) + " "@ + vreg_text(vdst) + ", "@ + src_text(src0_enc),
        Inst::Vop2 { op, vdst, src0_enc, src1, .. } => if op == Vop2Op::CndmaskB32 {
            "v_cndmask_b32_e32 "@ + vreg_text(vdst) + ", "@ + src_text(src0_enc) + ", "@ + vreg_text(src1)
                + ", vcc_lo"@
        } else {
            mnemonic_spec(i) + " "@ + vreg_text(vdst) + ", "@ + src_text(src0_enc) + ", "@ + vreg_text(src1)
        },
        Inst::Vopc { src0_enc, src1, .. } => mnemonic_spec(i) + " vcc_lo, "@ + src_text(src0_enc) + ", "@ + vreg_text(
            src1,
        ),
        Inst::GlobalLoadB32 { vdst, vaddr, saddr, .. } => "global_load_b32 "@ + vreg_text(vdst) + ", "@ + vreg_text(
            vaddr,
        ) + ", "@ + spair_text(saddr),
        Inst::GlobalStoreB32 { vaddr, vdata, saddr, .. } => "global_store_b32 "@ + vreg_text(vaddr) + ", "@
            + vreg_text(vdata) + ", "@ + spair_text(saddr),
    }
}

/// The text of the global memory instructions: a load names its destination
/// register, then its address register; a store names its address register
/// first and its data register second; both end with the scalar base pair.
pub proof fn lemma_global_memory_text(vdst: u8, vaddr: u8, vdata: u8, saddr: u8, size: u32)
    ensures
        inst_text(Inst::GlobalStoreB32 { vaddr, vdata, saddr, size }) == "global_store_b32 "@ + ("v"@ + dec_chars(
            vaddr as nat,
        )) + ", "@ + ("v"@ + dec_chars(vdata as nat)) + ", "@ + ("s["@ + dec_chars(saddr as nat) + ":"@ + dec_chars(
            saddr as nat + 1,
        ) + "]"@),
        inst_text(Inst::GlobalLoadB32 { vdst, vaddr, saddr, size }) == "global_load_b32 "@ + ("v"@ + dec_chars(
            vdst as nat,
        )) + ", "@ + ("v"@ + dec_chars(vaddr as nat)) + ", "@ + ("s["@ + dec_chars(saddr as nat) + ":"@ + dec_chars(
            saddr as nat + 1,
        ) + "]"@),
{
}

/// Disassemble one word (single-word forms).
pub fn disasm_word(word: u32, pc: u32) -> (r: Result<String, IsaError>)
    ensures
        match decode_word_spec(word, pc) {
            Ok(i) => r matches Ok(s) && s@ == inst_text(i),
            Err(t) => r matches Err(e) && is_trap_error(e, t),
        },
{
    let inst = decode_word(word, pc)?;
    Ok(format_inst(&inst))
}

/// Disassemble the instruction at `pc` in `code` (multi-word forms too).
pub fn disasm_at(code: &[u8], pc: u32) -> (r: Result<String, IsaError>)
    ensures
        match decode_at_spec(code@, pc) {
            Ok(i) => r matches Ok(s) && s@ == inst_text(i),
            Err(t) => r matches Err(e) && is_trap_error(e, t),
        },
{
    let inst = decode_at(code, pc)?;
    Ok(format_inst(&inst))
}

fn fmt_src_enc(enc: u16) -> (r: String)
    ensures
        r@ == src_text(enc),
{
    if enc < 106 {
        cat(owned("s"), dec_u64(enc as u64).as_str())
    } else if 128 <= enc && enc <= 192 {
        dec_u64((enc - 128) as u64)
    } else if enc == 193 {
        owned("-1")
    } else if 256 <= enc && enc < 512 {
        cat(owned("v"), dec_u64((enc - 256) as u64).as_str())
    } else {
        cat(cat(owned("/*src:0x"), hex_u64(enc as u64).as_str()), "*/")
    }
}

fn fmt_dst(enc: ScalarEnc) -> (r: String)
    ensures
        r@ == dst_text(enc),
{
    cat(owned("s"), dec_u64(enc.0 as u64).as_str())
}

fn fmt_vreg(n: u8) -> (r: String)
    ensures
        r@ == vreg_text(n),
{
    cat(owned("v"), dec_u64(n as u64).as_str())
}

fn fmt_spair(n: u8) -> (r: String)
    ensures
        r@ == spair_text(n),
{
    let a = cat(cat(owned("s["), dec_u64(n as u64).as_str()), ":");
    cat(cat_string(a, dec_u64(n as u64 + 1)), "]")
}

/// `a + ", " + b`.
fn comma(a: String, b: String) -> (r: String)
    ensures
        r@ == a@ + ", "@ + b@,
{
    cat_string(cat(a, ", "), b)
}

fn format_inst(inst: &Inst) -> (r: String)
    ensures
        r@ == inst_text(*inst),
{
    let m = inst.mnemonic();
    match *inst {
        Inst::SNop { simm16 } => cat(owned("s_nop "), dec_u64(simm16 as u64).as_str()),
        Inst::SEndPgm => owned("s_endpgm"),
        Inst::SSleep { simm16 } => cat(owned("s_sleep "), dec_u64(simm16 as u64).as_str()),
        Inst::SWaitCnt { simm16 } => cat(owned("s_waitcnt "), dec_u64(simm16 as u64).as_str()),
        Inst::SCbranch { simm16, .. } => cat(cat(owned(m), " "), dec_i64((simm16 as i16) as i64).as_str()),
        Inst::SCmp { ssrc0, ssrc1, .. } => comma(
            cat_string(cat(owned(m), " "), fmt_src_enc(ssrc0.0 as u16)),
            fmt_src_enc(ssrc1.0 as u16),
        ),
        Inst::Sopk { sdst, simm16, .. } => cat_string(
            cat(cat_string(cat(owned(m), " "), fmt_dst(sdst)), ", 0x"),
            hex_u64(simm16 as u64),
        ),
        Inst::Sop1 { sdst, ssrc0, .. } => comma(cat_string(cat(owned(m), " "), fmt_dst(sdst)), fmt_src_enc(ssrc0.0 as u16)),
        Inst::Sop2 { sdst, ssrc0, ssrc1, .. } => comma(
            comma(cat_string(cat(owned(m), " "), fmt_dst(sdst)), fmt_src_enc(ssrc0.0 as u16)),
            fmt_src_enc(ssrc1.0 as u16),
        ),
        Inst::SLoadB64 { sdst, sbase, offset, .. } => cat_string(
            cat(comma(cat_string(owned("s_load_b64 "), fmt_spair(sdst)), fmt_spair(sbase)), ", 0x"),
            hex_u64(offset as u64),
        ),
        Inst::Vop1 { vdst, src0_enc, .. } => comma(cat_string(cat(owned(m), " "), fmt_vreg(vdst)), fmt_src_enc(src0_enc)),
        Inst::Vop2 { op, vdst, src0_enc, src1, .. } => {
            if op == Vop2Op::CndmaskB32 {
                cat(
                    comma(
                        comma(cat_string(owned("v_cndmask_b32_e32 "), fmt_vreg(vdst)), fmt_src_enc(src0_enc)),
                        fmt_vreg(src1),
                    ),
                    ", vcc_lo",
                )
            } else {
                comma(comma(cat_string(cat(owned(m), " "), fmt_vreg(vdst)), fmt_src_enc(src0_enc)), fmt_vreg(src1))
            }
        },
        Inst::Vopc { src0_enc, src1, .. } => comma(
            cat_string(cat(owned(m), " vcc_lo, "), fmt_src_enc(src0_enc)),
            fmt_vreg(src1),
        ),
        Inst::GlobalLoadB32 { vdst, vaddr, saddr, .. } => comma(
            comma(cat_string(owned("global_load_b32 "), fmt_vreg(vdst)), fmt_vreg(vaddr)),
            fmt_spair(saddr),
        ),
        Inst::GlobalStoreB32 { vaddr, vdata, saddr, .. } => comma(
            comma(cat_string(owned("global_store_b32 "), fmt_vreg(vaddr)), fmt_vreg(vdata)),
            fmt_spair(saddr),
        ),
    }
}

} // verus!
