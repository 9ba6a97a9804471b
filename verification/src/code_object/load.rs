//! Agent code-object load: metadata plus the `.text` section.
//!
//! The supported shape is gfx1201 metadata with exactly one kernel and a
//! non-empty `.text` whose bytes the interpreter executes under the SoftGPU
//! launch convention. Anything else fails closed.
use super::elf::{header_fault, section_at, section_bytes_spec, section_name_spec, Elf64File};
use super::error::CodeObjectError;
use super::metadata::{inspect_bytes, inspect_ok, inspected, CodeObjectInfo, InfoSpec, KernelInfo};
use crate::bytes::push_slice;
use crate::text::{cat, owned};
use vstd::prelude::*;

verus! {

/// Launch ABI of a loaded kernel image.
#[derive(Debug, Clone, Copy, PartialEq, Eq)]
pub enum LaunchAbi {
    /// `s[4:5]` holds the kernarg address, `v0` the global id x.
    SoftGpuCc,
}

/// One kernel bound to the image's `.text`.
#[derive(Debug, Clone)]
pub struct LoadableKernel {
    pub name: String,
    pub symbol: String,
    pub text: Vec<u8>,
    pub kernarg_segment_size: u32,
    pub kernarg_segment_align: u32,
    pub group_segment_size: u32,
    pub private_segment_size: u32,
    pub launch_abi: LaunchAbi,
}

/// A loaded agent image: metadata, shared `.text`, bound kernels.
#[derive(Debug, Clone)]
pub struct LoadableAgentImage {
    pub info: CodeObjectInfo,
    pub text: Vec<u8>,
    pub kernels: Vec<LoadableKernel>,
}

/// Outcome of looking for the `.text` section from header `i` on.
pub enum TextScan {
    Found(Seq<u8>),
    Missing,
    Fault,
}

/// The first section named `.text` at index `i` or later, its bytes.
pub open spec fn text_scan(d: Seq<u8>, shoff: int, shnum: int, shstrndx: int, i: int) -> TextScan
    decreases shnum - i,
{
    if i >= shnum || i < 0 {
        TextScan::Missing
    } else if shoff + i * 64 + 64 > d.len() {
        TextScan::Fault
    } else {
        let sec = section_at(d, shoff + i * 64);
        match section_name_spec(d, shoff, shnum, shstrndx, sec.name_off as int) {
            None => TextScan::Fault,
            Some(n) => if n == ".text"@ {
                match section_bytes_spec(d, sec) {
                    Some(b) => TextScan::Found(b),
                    None => TextScan::Fault,
                }
            } else {
                text_scan(d, shoff, shnum, shstrndx, i + 1)
            },
        }
    }
}

/// `.text` lookup over the headers of an ELF image.
pub open spec fn text_of(d: Seq<u8>) -> TextScan {
    text_scan(
        d,
        crate::bytes::le64(d, 40),
        crate::bytes::le16(d, 60),
        crate::bytes::le16(d, 62),
        0,
    )
}

/// Symbol a kernel is bound under: its metadata symbol, else `<name>.kd`.
pub open spec fn symbol_of(k: KernelInfo) -> Seq<char> {
    match k.symbol {
        Some(s) => s@,
        None => k.name@ + ".kd"@,
    }
}

/// `lk` is metadata kernel `k` bound to `text`.
pub open spec fn binds(lk: LoadableKernel, k: KernelInfo, text: Seq<u8>) -> bool {
    &&& lk.name@ == k.name@
    &&& lk.symbol@ == symbol_of(k)
    &&& lk.text@ == text
    &&& lk.kernarg_segment_size == k.kernarg_segment_size
    &&& lk.kernarg_segment_align == k.kernarg_segment_align
    &&& lk.group_segment_size == k.group_segment_fixed_size
    &&& lk.private_segment_size == k.private_segment_fixed_size
    &&& lk.launch_abi == LaunchAbi::SoftGpuCc
}

/// Agent code-object bytes that load: their metadata inspects to exactly
/// one kernel and they hold a non-empty `.text`.
pub open spec fn agent_loadable(d: Seq<u8>) -> bool {
    &&& inspected(d) matches Some(InfoSpec::Info { kernels, .. }) && kernels.len() == 1
    &&& text_of(d) matches TextScan::Found(t) && t.len() > 0
}

/// Extract `.text` and bind the one supported kernel of an agent code object.
pub fn load_agent_image(bytes: &[u8]) -> (r: Result<LoadableAgentImage, CodeObjectError>)
    ensures
        header_fault(bytes@) matches Some(k) ==> r matches Err(e) && e.spec_kind() == k,
        text_of(bytes@) is Missing ==> r is Err,
        text_of(bytes@) matches TextScan::Found(t) && t.len() == 0 ==> r is Err,
        inspected(bytes@) matches Some(InfoSpec::Fail(k)) ==> (r matches Err(e) && e.spec_kind() == k),
        inspected(bytes@) matches Some(InfoSpec::Info { kernels, .. }) && kernels.len() != 1 ==> r is Err,
        agent_loadable(bytes@) ==> r is Ok,
        r matches Ok(img) ==> {
            &&& inspect_ok(bytes@, img.info)
            &&& text_of(bytes@) == TextScan::Found(img.text@)
            &&& img.text@.len() > 0
            &&& img.info.kernels@.len() == 1
            &&& img.kernels@.len() == 1
            &&& binds(img.kernels@[0], img.info.kernels@[0], img.text@)
        },
{
    let info = inspect_bytes(bytes)?;
    let elf = Elf64File::parse(bytes)?;
    let text_bytes = extract_text_section(&elf)?;
    let mut text: Vec<u8> = Vec::new();
    push_slice(&mut text, text_bytes);
    assert(text@ =~= text_bytes@);
    if text.len() == 0 {
        return Err(CodeObjectError::Unsupported { detail: owned("agent code object has empty .text") });
    }
    if info.kernels.len() != 1 {
        let d = cat(
            owned("SoftGPU executable load supports exactly 1 kernel, found "),
            crate::text::dec_u64(info.kernels.len() as u64).as_str(),
        );
        return Err(CodeObjectError::Unsupported { detail: d });
    }
    let k = &info.kernels[0];
    let symbol = match &k.symbol {
        Some(s) => s.clone(),
        None => cat(k.name.clone(), ".kd"),
    };
    let mut ktext: Vec<u8> = Vec::new();
    push_slice(&mut ktext, text.as_slice());
    assert(ktext@ =~= text@);
    let lk = LoadableKernel {
        name: k.name.clone(),
        symbol,
        text: ktext,
        kernarg_segment_size: k.kernarg_segment_size,
        kernarg_segment_align: k.kernarg_segment_align,
        group_segment_size: k.group_segment_fixed_size,
        private_segment_size: k.private_segment_fixed_size,
        launch_abi: LaunchAbi::SoftGpuCc,
    };
    let mut kernels: Vec<LoadableKernel> = Vec::new();
    kernels.push(lk);
    Ok(LoadableAgentImage { info, text, kernels })
}

/// The bytes of the first section named `.text`.
fn extract_text_section<'a>(elf: &Elf64File<'a>) -> (r: Result<&'a [u8], CodeObjectError>)
    requires
        elf.wf(),
    ensures
        match text_scan(elf.data@, elf.shoff as int, elf.shnum as int, elf.shstrndx as int, 0) {
            TextScan::Found(b) => r matches Ok(x) && x@ == b,
            _ => r is Err,
        },
{
    let n = elf.shnum as usize;
    let mut i: usize = 0;
    while i < n
        invariant
            elf.wf(),
            n == elf.shnum,
            i <= n,
            text_scan(elf.data@, elf.shoff as int, elf.shnum as int, elf.shstrndx as int, 0) == text_scan(
                elf.data@,
                elf.shoff as int,
                elf.shnum as int,
                elf.shstrndx as int,
                i as int,
            ),
        decreases n - i,
    {
        let sec = elf.section(i)?;
        let name = elf.section_name(&sec)?;
        proof { reveal_strlit(".text"); }
        if str_eq(name, ".text") {
            return elf.section_bytes(&sec);
        }
        i = i + 1;
    }
    Err(CodeObjectError::Unsupported { detail: owned("missing .text section") })
}

/// String equality by characters.
fn str_eq(a: &str, b: &str) -> (r: bool)
    ensures
        r == (a@ == b@),
{
    let x = owned(a);
    let y = owned(b);
    x == y
}

/// The first kernel of the metadata, if any.
pub fn primary_kernel(info: &CodeObjectInfo) -> (r: Option<&KernelInfo>)
    ensures
        info.kernels@.len() == 0 ==> r is None,
        info.kernels@.len() > 0 ==> r == Some(&info.kernels@[0]),
{
    if info.kernels.len() == 0 {
        None
    } else {
        Some(&info.kernels[0])
    }
}

} // verus!
