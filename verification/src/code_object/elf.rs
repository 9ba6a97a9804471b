//! Bounded little-endian ELF64 reader (code objects only).
use super::error::{CodeObjectError, CodeObjectErrorKind};
use super::MAX_CODE_OBJECT_BYTES;
use crate::bytes::{le16, le32, le64, le_u16_at, le_u32_at, le_u64_at};
use crate::text::{cat, dec_u64, owned, utf8_str};
use vstd::prelude::*;

verus! {

pub const ELFCLASS64: u8 = 2;
pub const ELFDATA2LSB: u8 = 1;
pub const ET_REL: u16 = 1;
pub const ET_EXEC: u16 = 2;
pub const ET_DYN: u16 = 3;
pub const SHT_NOTE: u32 = 7;
pub const MAX_SECTIONS: usize = 256;

/// A parsed ELF64 header over borrowed bytes.
#[derive(Debug, Clone)]
pub struct Elf64File<'a> {
    pub data: &'a [u8],
    pub etype: u16,
    pub shoff: u64,
    pub shentsize: u16,
    pub shnum: u16,
    pub shstrndx: u16,
}

/// One section header (the fields this reader uses).
#[derive(Debug, Clone, Copy, PartialEq, Eq)]
pub struct Elf64Section {
    pub name_off: u32,
    pub sh_type: u32,
    pub offset: u64,
    pub size: u64,
}

pub open spec fn is_elf_magic(d: Seq<u8>) -> bool {
    d[0] == 0x7f && d[1] == 0x45 && d[2] == 0x4c && d[3] == 0x46
}

/// The first header check that fails on `d`, or `None` when the header is accepted.
pub open spec fn header_fault(d: Seq<u8>) -> Option<CodeObjectErrorKind> {
    let etype = le16(d, 16);
    let shoff = le64(d, 40);
    let shentsize = le16(d, 58);
    let shnum = le16(d, 60);
    let shstrndx = le16(d, 62);
    if d.len() > MAX_CODE_OBJECT_BYTES {
        Some(CodeObjectErrorKind::TooLarge)
    } else if d.len() < 64 {
        Some(CodeObjectErrorKind::Truncated)
    } else if !is_elf_magic(d) {
        Some(CodeObjectErrorKind::NotElf)
    } else if d[4] != ELFCLASS64 {
        Some(CodeObjectErrorKind::UnsupportedClass)
    } else if d[5] != ELFDATA2LSB {
        Some(CodeObjectErrorKind::UnsupportedEndian)
    } else if etype != ET_DYN && etype != ET_EXEC && etype != ET_REL {
        Some(CodeObjectErrorKind::UnsupportedElfType)
    } else if shentsize != 64 {
        Some(CodeObjectErrorKind::BadHeader)
    } else if shnum > MAX_SECTIONS {
        Some(CodeObjectErrorKind::LimitExceeded)
    } else if shoff != 0 && shoff + shnum * shentsize > u64::MAX {
        Some(CodeObjectErrorKind::BadHeader)
    } else if shoff != 0 && shoff + shnum * shentsize > d.len() {
        Some(CodeObjectErrorKind::Truncated)
    } else if shoff != 0 && shstrndx >= shnum && shnum != 0 {
        Some(CodeObjectErrorKind::BadHeader)
    } else {
        None
    }
}

/// The section header stored at byte offset `off` of `d`.
pub open spec fn section_at(d: Seq<u8>, off: int) -> Elf64Section {
    Elf64Section {
        name_off: le32(d, off) as u32,
        sh_type: le32(d, off + 4) as u32,
        offset: le64(d, off + 24) as u64,
        size: le64(d, off + 32) as u64,
    }
}

impl<'a> Elf64File<'a> {
    /// Well-formedness established by `parse`.
    pub open spec fn wf(&self) -> bool {
        &&& self.data@.len() <= MAX_CODE_OBJECT_BYTES
        &&& self.shentsize == 64
        &&& self.shnum <= MAX_SECTIONS
        &&& self.shoff != 0 ==> self.shoff + self.shnum * 64 <= self.data@.len()
        &&& self.shoff != 0 ==> (self.shnum == 0 || self.shstrndx < self.shnum)
    }

    /// Byte offset of section header `index`.
    pub open spec fn header_offset(&self, index: int) -> int {
        self.shoff + index * self.shentsize
    }

    /// Parse and bound-check the ELF64 header of `data`.
    pub fn parse(data: &'a [u8]) -> (r: Result<Self, CodeObjectError>)
        ensures
            r is Ok <==> header_fault(data@) is None,
            r matches Err(e) ==> Some(e.spec_kind()) == header_fault(data@),
            r matches Err(CodeObjectError::TooLarge { size, max }) ==> size == data@.len()
                && max == MAX_CODE_OBJECT_BYTES,
            r matches Err(CodeObjectError::UnsupportedClass { class }) ==> class == data@[4],
            r matches Err(CodeObjectError::UnsupportedEndian { data: x }) ==> x == data@[5],
            r matches Err(CodeObjectError::UnsupportedElfType { etype }) ==> etype == le16(
                data@,
                16,
            ),
            r matches Ok(f) ==> {
                &&& f.data@ == data@
                &&& f.etype == le16(data@, 16)
                &&& f.shoff == le64(data@, 40)
                &&& f.shentsize == le16(data@, 58)
                &&& f.shnum == le16(data@, 60)
                &&& f.shstrndx == le16(data@, 62)
                &&& f.wf()
            },
    {
        let len = data.len();
        if len > MAX_CODE_OBJECT_BYTES {
            return Err(CodeObjectError::TooLarge { size: len, max: MAX_CODE_OBJECT_BYTES });
        }
        if len < 64 {
            return Err(CodeObjectError::Truncated { detail: owned("ELF header") });
        }
        if !(data[0] == 0x7f && data[1] == 0x45 && data[2] == 0x4c && data[3] == 0x46) {
            return Err(CodeObjectError::NotElf);
        }
        if data[4] != ELFCLASS64 {
            return Err(CodeObjectError::UnsupportedClass { class: data[4] });
        }
        if data[5] != ELFDATA2LSB {
            return Err(CodeObjectError::UnsupportedEndian { data: data[5] });
        }
        let etype = le_u16_at(data, 16);
        if etype != ET_DYN && etype != ET_EXEC && etype != ET_REL {
            return Err(CodeObjectError::UnsupportedElfType { etype });
        }
        let shoff = le_u64_at(data, 40);
        let shentsize = le_u16_at(data, 58);
        let shnum = le_u16_at(data, 60);
        let shstrndx = le_u16_at(data, 62);
        if shentsize != 64 {
            let d = cat(owned("shentsize="), dec_u64(shentsize as u64).as_str());
            return Err(CodeObjectError::BadHeader { detail: cat(d, ", expected 64") });
        }
        if shnum as usize > MAX_SECTIONS {
            let d = cat(owned("shnum="), dec_u64(shnum as u64).as_str());
            return Err(CodeObjectError::LimitExceeded { detail: cat(d, " > 256") });
        }
        if shoff != 0 {
            let table_bytes = (shnum as u64) * 64;
            let table_end = match shoff.checked_add(table_bytes) {
                Some(e) => e,
                None => {
                    return Err(CodeObjectError::BadHeader { detail: owned("section table overflow") });
                },
            };
            if table_end > len as u64 {
                return Err(CodeObjectError::Truncated { detail: owned("section header table") });
            }
            if shstrndx >= shnum && shnum != 0 {
                let d = cat(owned("shstrndx="), dec_u64(shstrndx as u64).as_str());
                return Err(CodeObjectError::BadHeader { detail: cat(d, " out of range") });
            }
        }
        Ok(Elf64File { data, etype, shoff, shentsize, shnum, shstrndx })
    }

    /// Read section header `index`.
    pub fn section(&self, index: usize) -> (r: Result<Elf64Section, CodeObjectError>)
        requires
            self.wf(),
        ensures
            index >= self.shnum ==> r matches Err(CodeObjectError::SectionFault { .. }),
            index < self.shnum && self.header_offset(index as int) + 64 > self.data@.len()
                ==> r matches Err(CodeObjectError::Truncated { .. }),
            index < self.shnum && self.header_offset(index as int) + 64 <= self.data@.len()
                ==> r == Ok::<Elf64Section, CodeObjectError>(
                section_at(self.data@, self.header_offset(index as int)),
            ),
    {
        if index >= self.shnum as usize {
            let d = cat(owned("index "), dec_u64(index as u64).as_str());
            return Err(CodeObjectError::SectionFault { detail: d });
        }
        let off64 = self.shoff as u128 + (index as u128) * 64;
        if off64 + 64 > self.data.len() as u128 {
            return Err(CodeObjectError::Truncated { detail: owned("section header") });
        }
        let off = off64 as usize;
        let hdr = slice(self.data, off, 64)?;
        Ok(
            Elf64Section {
                name_off: le_u32_at(hdr, 0),
                sh_type: le_u32_at(hdr, 4),
                offset: le_u64_at(hdr, 24),
                size: le_u64_at(hdr, 32),
            },
        )
    }

    /// The bytes a section header points at.
    pub fn section_bytes(&self, sec: &Elf64Section) -> (r: Result<&'a [u8], CodeObjectError>)
        ensures
            sec.size == 0 ==> (r matches Ok(b) && b@.len() == 0),
            sec.size != 0 && sec.offset + sec.size <= self.data@.len() ==> (r matches Ok(b)
                && b@ == self.data@.subrange(sec.offset as int, sec.offset + sec.size)),
            sec.size != 0 && sec.offset + sec.size > self.data@.len() ==> r matches Err(
                CodeObjectError::Truncated { .. },
            ) || r matches Err(CodeObjectError::SectionFault { .. }),
    {
        let _n = self.data.len();
        if sec.size == 0 {
            return Ok(empty_slice(self.data));
        }
        if sec.offset > usize::MAX as u64 {
            return Err(CodeObjectError::SectionFault { detail: owned("offset too large") });
        }
        if sec.size > usize::MAX as u64 {
            return Err(CodeObjectError::SectionFault { detail: owned("size too large") });
        }
        slice(self.data, sec.offset as usize, sec.size as usize)
    }

    /// The NUL-terminated name of `sec` in the section-name string table.
    pub fn section_name(&self, sec: &Elf64Section) -> (r: Result<&'a str, CodeObjectError>)
        requires
            self.wf(),
        ensures
            r is Ok <==> section_name_spec(
                self.data@,
                self.shoff as int,
                self.shnum as int,
                self.shstrndx as int,
                sec.name_off as int,
            ) is Some,
            r matches Ok(s) ==> Some(s@) == section_name_spec(
                self.data@,
                self.shoff as int,
                self.shnum as int,
                self.shstrndx as int,
                sec.name_off as int,
            ),
    {
        if self.shnum == 0 {
            return Ok(utf8_empty());
        }
        let strtab = self.section(self.shstrndx as usize)?;
        if strtab.sh_type == 0 {
            return Ok(utf8_empty());
        }
        let bytes = self.section_bytes(&strtab)?;
        let start = sec.name_off as usize;
        if start >= bytes.len() {
            return Err(CodeObjectError::SectionFault { detail: owned("name offset OOB") });
        }
        let end = first_nul(bytes, start);
        let name = &bytes[start..end];
        match utf8_str(name) {
            Some(s) => Ok(s),
            None => Err(CodeObjectError::SectionFault { detail: owned("section name not utf8") }),
        }
    }

    /// Indexes and headers of every `SHT_NOTE` section, in table order.
    pub fn note_sections(&self) -> (r: Result<Vec<(usize, Elf64Section)>, CodeObjectError>)
        requires
            self.wf(),
        ensures
            self.shoff + self.shnum * 64 <= self.data@.len() ==> (r matches Ok(v) && v@
                == note_sections_spec(self.data@, self.shoff as int, self.shnum as int)),
    {
        let mut out: Vec<(usize, Elf64Section)> = Vec::new();
        let n = self.shnum as usize;
        let mut i: usize = 0;
        while i < n
            invariant
                self.wf(),
                n == self.shnum,
                i <= n,
                self.shoff + self.shnum * 64 <= self.data@.len() ==> out@ == note_sections_spec(
                    self.data@,
                    self.shoff as int,
                    i as int,
                ),
            decreases n - i,
        {
            let sec = self.section(i)?;
            if sec.sh_type == SHT_NOTE {
                out.push((i, sec));
            }
            i = i + 1;
        }
        Ok(out)
    }
}

/// `(index, header)` for every note section among the first `n` headers.
pub open spec fn note_sections_spec(d: Seq<u8>, shoff: int, n: int) -> Seq<(usize, Elf64Section)>
    decreases n,
{
    if n <= 0 {
        Seq::empty()
    } else {
        let prev = note_sections_spec(d, shoff, n - 1);
        let sec = section_at(d, shoff + (n - 1) * 64);
        if sec.sh_type == SHT_NOTE {
            prev.push(((n - 1) as usize, sec))
        } else {
            prev
        }
    }
}

/// Index of the first NUL byte at or after `i`, or the length when none.
pub open spec fn first_nul_spec(b: Seq<u8>, i: int) -> int
    decreases b.len() - i,
{
    if i >= b.len() {
        b.len() as int
    } else if b[i] == 0 {
        i
    } else {
        first_nul_spec(b, i + 1)
    }
}

/// The bytes of a section, or `None` when its range leaves the file.
pub open spec fn section_bytes_spec(d: Seq<u8>, sec: Elf64Section) -> Option<Seq<u8>> {
    if sec.size == 0 {
        Some(Seq::empty())
    } else if sec.offset + sec.size <= d.len() {
        Some(d.subrange(sec.offset as int, sec.offset + sec.size))
    } else {
        None
    }
}

/// The name `section_name` yields, or `None` when it fails.
pub open spec fn section_name_spec(d: Seq<u8>, shoff: int, shnum: int, shstrndx: int, name_off: int) -> Option<Seq<char>> {
    if shnum == 0 {
        Some(Seq::empty())
    } else if shstrndx >= shnum || shoff + shstrndx * 64 + 64 > d.len() {
        None
    } else {
        let t = section_at(d, shoff + shstrndx * 64);
        if t.sh_type == 0 {
            Some(Seq::empty())
        } else {
            match section_bytes_spec(d, t) {
                None => None,
                Some(b) => if name_off >= b.len() {
                    None
                } else {
                    let nb = b.subrange(name_off, first_nul_spec(b, name_off));
                    if vstd::utf8::valid_utf8(nb) {
                        Some(vstd::utf8::decode_utf8(nb))
                    } else {
                        None
                    }
                },
            }
        }
    }
}

fn first_nul(b: &[u8], start: usize) -> (r: usize)
    requires
        start <= b@.len(),
    ensures
        r == first_nul_spec(b@, start as int),
        start <= r <= b@.len(),
{
    let n = b.len();
    let mut i = start;
    while i < n
        invariant
            n == b@.len(),
            start <= i <= n,
            first_nul_spec(b@, start as int) == first_nul_spec(b@, i as int),
        decreases n - i,
    {
        if b[i] == 0 {
            return i;
        }
        i = i + 1;
    }
    i
}

fn utf8_empty() -> (r: &'static str)
    ensures
        r@.len() == 0,
{
    proof {
        reveal_strlit("");
    }
    ""
}

fn empty_slice<'b>(d: &'b [u8]) -> (r: &'b [u8])
    ensures
        r@.len() == 0,
{
    &d[0..0]
}

/// Little-endian u16 at `off`, failing closed when out of range.
pub fn read_u16(data: &[u8], off: usize) -> (r: Result<u16, CodeObjectError>)
    ensures
        off + 2 <= data@.len() <==> r is Ok,
        r matches Ok(v) ==> v == le16(data@, off as int),
        r matches Err(e) ==> e is Truncated,
{
    let s = slice(data, off, 2)?;
    Ok(le_u16_at(s, 0))
}

/// Little-endian u32 at `off`, failing closed when out of range.
pub fn read_u32(data: &[u8], off: usize) -> (r: Result<u32, CodeObjectError>)
    ensures
        off + 4 <= data@.len() <==> r is Ok,
        r matches Ok(v) ==> v == le32(data@, off as int),
        r matches Err(e) ==> e is Truncated,
{
    let s = slice(data, off, 4)?;
    Ok(le_u32_at(s, 0))
}

/// Little-endian u64 at `off`, failing closed when out of range.
pub fn read_u64(data: &[u8], off: usize) -> (r: Result<u64, CodeObjectError>)
    ensures
        off + 8 <= data@.len() <==> r is Ok,
        r matches Ok(v) ==> v == le64(data@, off as int),
        r matches Err(e) ==> e is Truncated,
{
    let s = slice(data, off, 8)?;
    Ok(le_u64_at(s, 0))
}

/// `data[off..off + len]`, or `Truncated` when the range leaves `data`.
pub fn slice<'b>(data: &'b [u8], off: usize, len: usize) -> (r: Result<&'b [u8], CodeObjectError>)
    ensures
        off + len <= data@.len() <==> r is Ok,
        r matches Ok(s) ==> s@ == data@.subrange(off as int, off + len),
        r matches Err(e) ==> e is Truncated,
{
    let _n = data.len();
    let end = match off.checked_add(len) {
        Some(e) => e,
        None => {
            return Err(CodeObjectError::Truncated { detail: owned("slice overflow") });
        },
    };
    if end > data.len() {
        let d = cat(owned("need "), dec_u64(end as u64).as_str());
        let d = cat(d, ", have ");
        let d = cat(d, dec_u64(data.len() as u64).as_str());
        return Err(CodeObjectError::Truncated { detail: d });
    }
    Ok(&data[off..end])
}

} // verus!
