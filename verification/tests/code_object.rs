use softgpu::code_object::elf::{
    read_u16, read_u32, read_u64, slice, Elf64File, Elf64Section, ELFCLASS64, ELFDATA2LSB, ET_DYN, ET_REL,
};
use softgpu::code_object::encode;
use softgpu::code_object::fixture::{
    build_code_object_with_metadata, build_code_object_with_metadata_and_text, fixture_multi_kernel_gfx1201,
    fixture_tiny_add_gfx1201, fixture_tiny_add_with_text, fixture_unsupported_target, fixture_unsupported_version,
};
use softgpu::isa::kernel::tiny_add_text;
use softgpu::code_object::load::{load_agent_image, primary_kernel, LaunchAbi};
use softgpu::code_object::metadata::{inspect_bytes, SUPPORTED_GFX_SUBSTRING};
use softgpu::code_object::msgpack::{parse, Value};
use softgpu::code_object::note::align4;
use softgpu::code_object::{CodeObjectError, MAX_CODE_OBJECT_BYTES};
use std::time::{Duration, Instant};

fn elf_header(etype: u16, shoff: u64, shentsize: u16, shnum: u16, shstrndx: u16, class: u8, data_enc: u8) -> Vec<u8> {
    let mut d = vec![0u8; 64];
    d[0..4].copy_from_slice(&[0x7f, b'E', b'L', b'F']);
    d[4] = class;
    d[5] = data_enc;
    d[16..18].copy_from_slice(&etype.to_le_bytes());
    d[40..48].copy_from_slice(&shoff.to_le_bytes());
    d[58..60].copy_from_slice(&shentsize.to_le_bytes());
    d[60..62].copy_from_slice(&shnum.to_le_bytes());
    d[62..64].copy_from_slice(&shstrndx.to_le_bytes());
    d
}

#[test]
fn rejects_non_elf() {
    assert!(matches!(
        Elf64File::parse(b"not elf"),
        Err(CodeObjectError::NotElf) | Err(CodeObjectError::Truncated { .. })
    ));
}

#[test]
fn rejects_truncated_header_and_bad_class_endian_type() {
    assert!(matches!(Elf64File::parse(&[0x7f, b'E', b'L', b'F']), Err(CodeObjectError::Truncated { .. })));
    let mut h = elf_header(ET_DYN, 0, 64, 0, 0, 1, ELFDATA2LSB);
    assert!(matches!(Elf64File::parse(&h), Err(CodeObjectError::UnsupportedClass { class: 1 })));
    h = elf_header(ET_DYN, 0, 64, 0, 0, ELFCLASS64, 2);
    assert!(matches!(Elf64File::parse(&h), Err(CodeObjectError::UnsupportedEndian { data: 2 })));
    h = elf_header(0, 0, 64, 0, 0, ELFCLASS64, ELFDATA2LSB);
    assert!(matches!(Elf64File::parse(&h), Err(CodeObjectError::UnsupportedElfType { etype: 0 })));
}

#[test]
fn rejects_bad_shentsize_shnum_and_shstrndx() {
    let h = elf_header(ET_DYN, 64, 32, 1, 0, ELFCLASS64, ELFDATA2LSB);
    assert!(matches!(Elf64File::parse(&h), Err(CodeObjectError::BadHeader { .. })));
    let h = elf_header(ET_DYN, 64, 64, 300, 0, ELFCLASS64, ELFDATA2LSB);
    assert!(matches!(Elf64File::parse(&h), Err(CodeObjectError::LimitExceeded { .. })));
    let h = elf_header(ET_DYN, 64, 64, 2, 0, ELFCLASS64, ELFDATA2LSB);
    assert!(matches!(Elf64File::parse(&h), Err(CodeObjectError::Truncated { .. })));
    let mut buf = elf_header(ET_DYN, 64, 64, 1, 5, ELFCLASS64, ELFDATA2LSB);
    buf.resize(64 + 64, 0);
    assert!(matches!(Elf64File::parse(&buf), Err(CodeObjectError::BadHeader { .. })));
}

#[test]
fn rejects_too_large_buffer() {
    let mut huge = vec![0u8; MAX_CODE_OBJECT_BYTES + 1];
    huge[0..4].copy_from_slice(&[0x7f, b'E', b'L', b'F']);
    huge[4] = ELFCLASS64;
    huge[5] = ELFDATA2LSB;
    assert!(matches!(Elf64File::parse(&huge), Err(CodeObjectError::TooLarge { .. })));
}

#[test]
fn fixture_sections_names_and_empty_bytes() {
    let bytes = fixture_tiny_add_gfx1201();
    let elf = Elf64File::parse(&bytes).unwrap();
    assert!(elf.shnum > 0);
    let notes = elf.note_sections().unwrap();
    assert!(!notes.is_empty());
    let (_i, sec) = notes[0];
    let name = elf.section_name(&sec).unwrap();
    assert!(!name.is_empty());
    let payload = elf.section_bytes(&sec).unwrap();
    assert!(!payload.is_empty());
    let empty = Elf64Section { name_off: 0, sh_type: 0, offset: 0, size: 0 };
    assert!(elf.section_bytes(&empty).unwrap().is_empty());
    assert!(matches!(elf.section(elf.shnum as usize), Err(CodeObjectError::SectionFault { .. })));
}

#[test]
fn slice_and_readers_fail_closed() {
    assert!(matches!(slice(&[1, 2, 3], 2, 4), Err(CodeObjectError::Truncated { .. })));
    assert!(matches!(slice(&[1, 2, 3], usize::MAX - 1, 4), Err(CodeObjectError::Truncated { .. })));
    assert!(read_u16(&[0], 0).is_err());
    assert!(read_u32(&[0, 1], 0).is_err());
    assert!(read_u64(&[0; 4], 0).is_err());
}

#[test]
fn section_name_oob_and_null_strtab() {
    let mut buf = elf_header(ET_REL, 64, 64, 1, 0, ELFCLASS64, ELFDATA2LSB);
    buf.resize(128, 0);
    buf[64 + 4..64 + 8].copy_from_slice(&3u32.to_le_bytes());
    buf[64 + 24..64 + 32].copy_from_slice(&120u64.to_le_bytes());
    buf[64 + 32..64 + 40].copy_from_slice(&8u64.to_le_bytes());
    let elf = Elf64File::parse(&buf).unwrap();
    let sec = Elf64Section { name_off: 100, sh_type: 1, offset: 0, size: 0 };
    assert!(matches!(elf.section_name(&sec), Err(CodeObjectError::SectionFault { .. })));
    let nulltab = Elf64Section { name_off: 0, sh_type: 1, offset: 0, size: 0 };
    buf[64 + 4..64 + 8].copy_from_slice(&0u32.to_le_bytes());
    let elf = Elf64File::parse(&buf).unwrap();
    assert_eq!(elf.section_name(&nulltab).unwrap(), "");
}

#[test]
fn error_display_covers_variants() {
    let cases = [
        CodeObjectError::Io("x".into()),
        CodeObjectError::TooLarge { size: 9, max: 1 },
        CodeObjectError::Truncated { detail: "t".into() },
        CodeObjectError::NotElf,
        CodeObjectError::UnsupportedClass { class: 1 },
        CodeObjectError::UnsupportedEndian { data: 2 },
        CodeObjectError::UnsupportedElfType { etype: 3 },
        CodeObjectError::BadHeader { detail: "h".into() },
        CodeObjectError::SectionFault { detail: "s".into() },
        CodeObjectError::NoteNotFound,
        CodeObjectError::UnsupportedNote { detail: "n".into() },
        CodeObjectError::MsgPack { detail: "m".into() },
        CodeObjectError::Metadata { detail: "md".into() },
        CodeObjectError::UnsupportedMetadataVersion { major: 1, minor: 2 },
        CodeObjectError::UnsupportedTarget { target: "gfx000".into() },
        CodeObjectError::LimitExceeded { detail: "l".into() },
    ];
    for err in cases {
        let s = err.describe();
        assert!(!s.is_empty(), "{err:?}");
    }
}

#[test]
fn loads_softgpu_tiny_add_text() {
    let bytes = fixture_tiny_add_with_text();
    let img = load_agent_image(&bytes).unwrap();
    assert_eq!(img.kernels.len(), 1);
    assert_eq!(img.kernels[0].name, "tiny_add");
    assert!(!img.text.is_empty());
    assert_eq!(img.kernels[0].launch_abi, LaunchAbi::SoftGpuCc);
}

#[test]
fn rejects_metadata_only_fixture() {
    let bytes = fixture_tiny_add_gfx1201();
    let err = load_agent_image(&bytes).unwrap_err();
    assert!(err.describe().contains(".text") || err.describe().contains("text"));
}

#[test]
fn round_trip_small_map() {
    let m = vec![
        ("amdhsa.target".to_string(), Value::String("amdgcn-amd-amdhsa--gfx1201".into())),
        ("amdhsa.version".to_string(), Value::Array(vec![Value::U64(1), Value::U64(2)])),
    ];
    let bytes = encode::map_from_btree(&m);
    let v = parse(&bytes).unwrap();
    match v {
        Value::Dict(out) => {
            assert!(out.iter().any(|(k, _)| k == "amdhsa.version"));
            assert!(out.iter().any(|(k, _)| k == "amdhsa.target"));
        }
        _ => panic!("expected map"),
    }
}

#[test]
fn align4_works() {
    assert_eq!(align4(0), 0);
    assert_eq!(align4(1), 4);
    assert_eq!(align4(4), 4);
    assert_eq!(align4(5), 8);
}

#[test]
fn tiny_add_fixture_parses_kernarg_and_target() {
    let bytes = fixture_tiny_add_gfx1201();
    let info = inspect_bytes(&bytes).unwrap();
    assert!(info.target.contains(SUPPORTED_GFX_SUBSTRING));
    assert_eq!(info.metadata_version.major, 1);
    assert_eq!(info.metadata_version.minor, 2);
    assert_eq!(info.kernels.len(), 1);
    let k = &info.kernels[0];
    assert_eq!(k.name, "tiny_add");
    assert_eq!(k.kernarg_segment_size, 16);
    assert_eq!(k.kernarg_segment_align, 8);
    assert_eq!(k.args.len(), 2);
    assert_eq!(k.args[0].offset, 0);
    assert_eq!(k.args[0].size, 8);
    assert_eq!(k.args[0].value_kind, "global_buffer");
    assert_eq!(info.fidelity, "abi");
    assert_eq!(info.note, "metadata_only_no_isa_execution");
}

#[test]
fn multi_kernel_segments() {
    let info = inspect_bytes(&fixture_multi_kernel_gfx1201()).unwrap();
    assert_eq!(info.kernels.len(), 2);
    assert_eq!(info.kernels[1].name, "reduce");
    assert_eq!(info.kernels[1].group_segment_fixed_size, 256);
    assert_eq!(info.kernels[1].private_segment_fixed_size, 64);
}

#[test]
fn unsupported_target_fails_closed() {
    let err = inspect_bytes(&fixture_unsupported_target()).unwrap_err();
    assert!(matches!(err, CodeObjectError::UnsupportedTarget { .. }));
}

#[test]
fn unsupported_version_fails_closed() {
    let err = inspect_bytes(&fixture_unsupported_version()).unwrap_err();
    assert!(matches!(err, CodeObjectError::UnsupportedMetadataVersion { major: 2, minor: 0 }));
}

#[test]
fn malformed_elf_fails_closed() {
    assert!(inspect_bytes(b"").is_err());
    assert!(inspect_bytes(b"\x7fELF").is_err());
    let mut junk = fixture_tiny_add_gfx1201();
    junk.truncate(32);
    assert!(inspect_bytes(&junk).is_err());
}

#[test]
fn fuzz_smoke_no_panic_bounded() {
    let seed = fixture_tiny_add_gfx1201();
    let deadline = Instant::now() + Duration::from_millis(500);
    let mut mutations = 0u32;
    let mut state: u64 = 0xC0FFEE_u64;
    while Instant::now() < deadline && mutations < 2_000 {
        state = state.wrapping_mul(6364136223846793005).wrapping_add(1);
        let mut buf = seed.clone();
        let n_flips = (state % 8) as usize + 1;
        for i in 0..n_flips {
            let idx = ((state >> (i * 8)) as usize) % buf.len().max(1);
            buf[idx] ^= (state as u8).wrapping_add(i as u8);
        }
        if buf.len() > 4 && (state & 0xf) == 0 {
            let cut = ((state >> 16) as usize) % buf.len();
            buf.truncate(cut);
        }
        let _ = inspect_bytes(&buf);
        mutations += 1;
    }
    assert!(mutations >= 100, "fuzz floor too low: only {mutations} mutations");
}

#[test]
fn fixture_image_layout_is_aligned() {
    let bytes = fixture_tiny_add_gfx1201();
    assert_eq!(&bytes[0..4], &[0x7f, b'E', b'L', b'F']);
    let shoff = u64::from_le_bytes(bytes[40..48].try_into().unwrap()) as usize;
    assert_eq!(shoff % 8, 0);
    assert_eq!(bytes.len(), shoff + 3 * 64);
    let with_text = fixture_tiny_add_with_text();
    let shoff_t = u64::from_le_bytes(with_text[40..48].try_into().unwrap()) as usize;
    assert_eq!(with_text.len(), shoff_t + 4 * 64);
}

#[test]
fn empty_text_is_omitted() {
    let meta = encode::map_from_btree(&vec![]);
    assert_eq!(build_code_object_with_metadata(&meta), build_code_object_with_metadata_and_text(&meta, Some(&[])));
    let t = tiny_add_text();
    assert_eq!(t.len(), 60);
    let img = build_code_object_with_metadata_and_text(&meta, Some(&t));
    assert!(inspect_bytes(&img).is_err());
}

#[test]
fn primary_kernel_is_first() {
    let info = inspect_bytes(&fixture_multi_kernel_gfx1201()).unwrap();
    assert_eq!(primary_kernel(&info).unwrap().name, "copy");
}

#[test]
fn load_rejects_two_kernels() {
    let info_bytes = fixture_multi_kernel_gfx1201();
    assert!(load_agent_image(&info_bytes).is_err());
    let img = load_agent_image(&fixture_tiny_add_with_text()).unwrap();
    assert_eq!(img.kernels[0].symbol, "tiny_add.kd");
    assert_eq!(img.kernels[0].text, tiny_add_text());
    assert_eq!(img.kernels[0].kernarg_segment_size, 16);
}

#[test]
fn scalar_values_round_trip() {
    assert!(matches!(parse(&encode::u64(200)).unwrap(), Value::U64(200)));
    assert!(matches!(parse(&encode::u64(7)).unwrap(), Value::U64(7)));
    assert_eq!(encode::u64(200).len(), 2);
    assert!(matches!(parse(&encode::bool(true)).unwrap(), Value::Bool(true)));
    assert!(matches!(parse(&encode::nil()).unwrap(), Value::Nil));
}

#[test]
fn short_string_round_trips() {
    match parse(&encode::str("gfx1201")).unwrap() {
        Value::String(s) => assert_eq!(s, "gfx1201"),
        other => panic!("unexpected {:?}", other),
    }
    assert_eq!(encode::str("gfx1201").len(), 8);
}
