//! Provenance of the gfx1201 encoding tables.
//!
//! Opcode and encoding facts were observed with LLVM tools and cross-checked
//! against the public AMDGPUUsage documentation; no restricted AMD ISA manual
//! content is reproduced.
use vstd::prelude::*;

verus! {

/// Architecture id accepted by this interpreter.
pub const TARGET_ARCH: &'static str = "gfx1201";

/// Nested end-to-end subset (still accepted).
pub const SUBSET_E2E_TINY_V1: &'static str = "softgpu-gfx1201-e2e-tiny-v1";

/// Primary subset name for diagnostics.
pub const SUBSET_NAME: &'static str = "softgpu-gfx1201-compute-v2";

/// Access date of the llvm-mc observation behind the encodings.
pub const GOLDEN_ACCESS_DATE: &'static str = "2026-09-16";

/// Tool that produced the encoding observations and the kernel `.text`.
pub const GOLDEN_TOOL: &'static str = "llvm-mc";

/// Public encoding reference.
pub const AMDGPU_USAGE_URL: &'static str = "https://llvm.org/docs/AMDGPUUsage.html";

/// License posture of the hand-maintained tables.
pub const TABLE_LICENSE_NOTE: &'static str = "Hand-maintained SoftGPU tables with provenance comments. Byte encodings and kernel text blobs were observed from LLVM llvm-mc (Apache-2.0 WITH LLVM-exception). SoftGPU does not redistribute restricted AMD ISA PDF content.";

/// Instruction families included in the subset, `FORMAT:mnemonic`.
pub fn supported_families() -> (r: Vec<&'static str>)
    ensures
        r@.len() == 54,
{
    vec![
    "SOPP:s_nop",
    "SOPP:s_endpgm",
    "SOPP:s_sleep",
    "SOPP:s_waitcnt",
    "SOPP:s_cbranch_scc0",
    "SOPP:s_cbranch_scc1",
    "SOPP:s_cbranch_execz",
    "SOPP:s_cbranch_execnz",
    "SOPC:s_cmp_eq_i32",
    "SOPC:s_cmp_lt_i32",
    "SOPC:s_cmp_eq_u32",
    "SOPC:s_cmp_lg_u32",
    "SOPC:s_cmp_gt_u32",
    "SOPC:s_cmp_ge_u32",
    "SOPC:s_cmp_le_u32",
    "SOPK:s_movk_i32",
    "SOPK:s_addk_co_i32",
    "SOPK:s_mulk_i32",
    "SOP1:s_mov_b32",
    "SOP1:s_brev_b32",
    "SOP1:s_not_b32",
    "SOP1:s_and_saveexec_b32",
    "SOP1:s_or_saveexec_b32",
    "SOP2:s_add_co_u32",
    "SOP2:s_sub_co_u32",
    "SOP2:s_and_b32",
    "SOP2:s_or_b32",
    "SOP2:s_xor_b32",
    "SOP2:s_min_u32",
    "SOP2:s_max_u32",
    "SOP2:s_mul_i32",
    "SMEM:s_load_b64",
    "VOP1:v_mov_b32_e32",
    "VOP1:v_not_b32_e32",
    "VOP1:v_bfrev_b32_e32",
    "VOP2:v_cndmask_b32_e32",
    "VOP2:v_min_u32_e32",
    "VOP2:v_max_u32_e32",
    "VOP2:v_lshlrev_b32_e32",
    "VOP2:v_lshrrev_b32_e32",
    "VOP2:v_ashrrev_i32_e32",
    "VOP2:v_and_b32_e32",
    "VOP2:v_or_b32_e32",
    "VOP2:v_xor_b32_e32",
    "VOP2:v_add_nc_u32_e32",
    "VOP2:v_sub_nc_u32_e32",
    "VOPC:v_cmp_eq_u32_e32",
    "VOPC:v_cmp_ne_u32_e32",
    "VOPC:v_cmp_lt_u32_e32",
    "VOPC:v_cmp_gt_u32_e32",
    "VOPC:v_cmp_le_u32_e32",
    "VOPC:v_cmp_ge_u32_e32",
    "GLOBAL:global_load_b32",
    "GLOBAL:global_store_b32",
    ]
}

} // verus!
