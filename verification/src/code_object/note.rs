//! ELF note walker for AMDGPU metadata.
use super::elf::{note_sections_spec, section_bytes_spec, Elf64File, Elf64Section};
use super::error::{CodeObjectError, CodeObjectErrorKind};
use crate::bytes::{le32, le_u32_at};
use crate::text::owned;
use vstd::prelude::*;

verus! {

/// `NT_AMDGPU_METADATA`.
pub const NT_AMDGPU_METADATA: u32 = 32;

/// Owner name of AMDGPU notes.
pub const NOTE_OWNER_AMDGPU: &'static str = "AMDGPU";
/// Maximum number of note headers visited across all note sections.
pub const MAX_NOTES: usize = 64;

/// The descriptor of an `AMDGPU` / `NT_AMDGPU_METADATA` note.
#[derive(Debug, Clone)]
pub struct AmdgpuMetadataNote<'a> {
    pub desc: &'a [u8],
}

/// Outcome of scanning note headers.
pub enum NoteScan {
    /// A matching note: section number (in note-section order), descriptor start and length.
    Found(int, int, int),
    /// No match; the count of note headers visited so far.
    Exhausted(int),
    /// Scanning failed with this error kind.
    Fault(CodeObjectErrorKind),
    /// A note section's byte range leaves the file.
    SectionRange,
}

/// `n` rounded up to a multiple of four.
pub open spec fn align4_spec(n: int) -> int {
    (n + 3) / 4 * 4
}

pub proof fn lemma_align4_nonneg(n: int)
    requires
        n >= 0,
    ensures
        n <= align4_spec(n) <= n + 3,
{
    assert(n <= (n + 3) / 4 * 4 <= n + 3) by (nonlinear_arith)
        requires
            n >= 0,
    ;
}

/// The owner name bytes are `AMDGPU` followed by zero or more NUL bytes.
pub open spec fn is_amdgpu_owner(name: Seq<u8>) -> bool {
    &&& name.len() >= 6
    &&& name[0] == 0x41 && name[1] == 0x4d && name[2] == 0x44 && name[3] == 0x47
    &&& name[4] == 0x50 && name[5] == 0x55
    &&& forall|i: int| 6 <= i < name.len() ==> name[i] == 0
}

/// Scan note headers of one section from `off`, having visited `seen` so far.
pub open spec fn scan_notes(b: Seq<u8>, off: int, seen: int) -> NoteScan
    decreases b.len() - off,
{
    if off < 0 || off + 12 > b.len() {
        NoteScan::Exhausted(seen)
    } else if seen >= MAX_NOTES {
        NoteScan::Fault(CodeObjectErrorKind::LimitExceeded)
    } else {
        let namesz = le32(b, off);
        let descsz = le32(b, off + 4);
        let ntype = le32(b, off + 8);
        let o1 = off + 12;
        if o1 + namesz > b.len() {
            NoteScan::Fault(CodeObjectErrorKind::Truncated)
        } else {
            let o2 = o1 + align4_spec(namesz);
            proof {
                lemma_align4_nonneg(namesz);
                lemma_align4_nonneg(descsz);
                assert(o2 + align4_spec(descsz) > off);
            }
            if o2 + descsz > b.len() {
                NoteScan::Fault(CodeObjectErrorKind::Truncated)
            } else if is_amdgpu_owner(b.subrange(o1, o1 + namesz)) && ntype == NT_AMDGPU_METADATA {
                NoteScan::Found(0, o2, descsz)
            } else if o2 + align4_spec(descsz) > b.len() {
                NoteScan::Exhausted(seen + 1)
            } else {
                scan_notes(b, o2 + align4_spec(descsz), seen + 1)
            }
        }
    }
}

/// Scan the note sections `notes[k..]` in order.
pub open spec fn find_note_from(d: Seq<u8>, notes: Seq<(usize, Elf64Section)>, k: int, seen: int) -> NoteScan
    decreases notes.len() - k,
{
    if k < 0 || k >= notes.len() {
        NoteScan::Exhausted(seen)
    } else {
        match section_bytes_spec(d, notes[k].1) {
            None => NoteScan::SectionRange,
            Some(b) => match scan_notes(b, 0, seen) {
                NoteScan::Exhausted(s2) => find_note_from(d, notes, k + 1, s2),
                NoteScan::Found(_, s, l) => NoteScan::Found(k, s, l),
                other => other,
            },
        }
    }
}

fn is_amdgpu_owner_exec(name: &[u8]) -> (r: bool)
    ensures
        r == is_amdgpu_owner(name@),
{
    let n = name.len();
    if n < 6 {
        return false;
    }
    if !(name[0] == 0x41 && name[1] == 0x4d && name[2] == 0x44 && name[3] == 0x47 && name[4] == 0x50
        && name[5] == 0x55) {
        return false;
    }
    let mut i: usize = 6;
    while i < n
        invariant
            n == name@.len(),
            6 <= i <= n,
            forall|j: int| 6 <= j < i ==> name@[j] == 0,
        decreases n - i,
    {
        if name[i] != 0 {
            return false;
        }
        i = i + 1;
    }
    true
}

/// Result of scanning one note section.
enum SectionScan<'a> {
    Found(&'a [u8]),
    Exhausted(usize),
}

fn scan_section<'a>(bytes: &'a [u8], seen0: usize) -> (r: Result<SectionScan<'a>, CodeObjectError>)
    requires
        seen0 <= MAX_NOTES,
    ensures
        match scan_notes(bytes@, 0, seen0 as int) {
            NoteScan::Found(_, s, l) => r matches Ok(SectionScan::Found(desc)) && desc@
                == bytes@.subrange(s, s + l),
            NoteScan::Exhausted(s2) => r matches Ok(SectionScan::Exhausted(n)) && n == s2 && n
                <= MAX_NOTES,
            NoteScan::Fault(kind) => r matches Err(e) && e.spec_kind() == kind,
            NoteScan::SectionRange => false,
        },
{
    let blen = bytes.len();
    let mut off: usize = 0;
    let mut seen = seen0;
    while blen >= 12 && off <= blen - 12
        invariant
            blen == bytes@.len(),
            seen <= MAX_NOTES,
            off <= blen,
            scan_notes(bytes@, 0, seen0 as int) == scan_notes(bytes@, off as int, seen as int),
        decreases blen - off,
    {
        let ghost b = bytes@;
        let ghost g_off = off as int;
        let ghost g_seen = seen as int;
        if seen >= MAX_NOTES {
            return Err(CodeObjectError::LimitExceeded { detail: owned("notes > 64") });
        }
        seen = seen + 1;
        let namesz = le_u32_at(bytes, off) as u128;
        let descsz = le_u32_at(bytes, off + 4) as u128;
        let ntype = le_u32_at(bytes, off + 8);
        let o1 = (off + 12) as u128;
        if o1 + namesz > blen as u128 {
            return Err(CodeObjectError::Truncated { detail: owned("note name") });
        }
        let name = &bytes[o1 as usize..(o1 + namesz) as usize];
        let o2 = o1 + (namesz + 3) / 4 * 4;
        assert(o2 == o1 + align4_spec(namesz as int));
        if o2 + descsz > blen as u128 {
            return Err(CodeObjectError::Truncated { detail: owned("note desc") });
        }
        let desc = &bytes[o2 as usize..(o2 + descsz) as usize];
        if is_amdgpu_owner_exec(name) && ntype == NT_AMDGPU_METADATA {
            return Ok(SectionScan::Found(desc));
        }
        let o3 = o2 + (descsz + 3) / 4 * 4;
        assert(o3 == o2 + align4_spec(descsz as int));
        if o3 > blen as u128 {
            assert(scan_notes(b, blen as int, g_seen + 1) == NoteScan::Exhausted(g_seen + 1));
            off = blen;
        } else {
            off = o3 as usize;
        }
    }
    Ok(SectionScan::Exhausted(seen))
}

/// Find the first `AMDGPU` / `NT_AMDGPU_METADATA` note descriptor.
pub fn find_amdgpu_metadata_note<'a>(elf: &Elf64File<'a>) -> (r: Result<AmdgpuMetadataNote<'a>, CodeObjectError>)
    requires
        elf.wf(),
    ensures
        elf.shoff + elf.shnum * 64 <= elf.data@.len() ==> {
            let notes = note_sections_spec(elf.data@, elf.shoff as int, elf.shnum as int);
            match find_note_from(elf.data@, notes, 0, 0) {
                NoteScan::Found(k, s, l) => r matches Ok(n) && n.desc@ == section_bytes_spec(
                    elf.data@,
                    notes[k].1,
                ).unwrap().subrange(s, s + l),
                NoteScan::Exhausted(_) => r matches Err(CodeObjectError::NoteNotFound),
                NoteScan::Fault(kind) => r matches Err(e) && e.spec_kind() == kind,
                NoteScan::SectionRange => r matches Err(e) && (e is Truncated || e is SectionFault),
            }
        },
{
    let notes = elf.note_sections()?;
    let ghost d = elf.data@;
    let mut seen: usize = 0;
    let mut k: usize = 0;
    while k < notes.len()
        invariant
            elf.wf(),
            d == elf.data@,
            k <= notes@.len(),
            seen <= MAX_NOTES,
            elf.shoff + elf.shnum * 64 <= elf.data@.len() ==> notes@ == note_sections_spec(
                elf.data@,
                elf.shoff as int,
                elf.shnum as int,
            ),
            find_note_from(d, notes@, 0, 0) == find_note_from(d, notes@, k as int, seen as int),
        decreases notes@.len() - k,
    {
        let sec = notes[k].1;
        assert(find_note_from(d, notes@, k as int, seen as int) == match section_bytes_spec(
            d,
            notes@[k as int].1,
        ) {
            None => NoteScan::SectionRange,
            Some(b) => match scan_notes(b, 0, seen as int) {
                NoteScan::Exhausted(s2) => find_note_from(d, notes@, k + 1, s2),
                NoteScan::Found(_, s, l) => NoteScan::Found(k as int, s, l),
                other => other,
            },
        });
        let bytes = elf.section_bytes(&sec)?;
        assert(section_bytes_spec(d, notes@[k as int].1) == Some(bytes@));
        match scan_section(bytes, seen)? {
            SectionScan::Found(desc) => {
                return Ok(AmdgpuMetadataNote { desc });
            },
            SectionScan::Exhausted(n) => {
                seen = n;
            },
        }
        k = k + 1;
    }
    Err(CodeObjectError::NoteNotFound)
}

/// `n` rounded up to a multiple of four (wrapping at the top of the range).
pub fn align4(n: usize) -> (r: usize)
    ensures
        n + 3 <= usize::MAX ==> r == align4_spec(n as int),
{
    let m = n.wrapping_add(3);
    let r = m - m % 4;
    r
}

} // verus!
