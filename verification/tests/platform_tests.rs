use coddog::platform::{Arch, Endianness, Platform};

#[test]
fn canonical_names_parse_case_insensitively() {
    assert_eq!(Platform::from_name("n64"), Some(Platform::N64));
    assert_eq!(Platform::from_name("N64"), Some(Platform::N64));
    assert_eq!(Platform::from_name("psx"), Some(Platform::Psx));
    assert_eq!(Platform::from_name("PS2"), Some(Platform::Ps2));
    assert_eq!(Platform::from_name("psp"), Some(Platform::Psp));
    assert_eq!(Platform::from_name("GC_WII"), Some(Platform::GcWii));
    assert_eq!(Platform::from_name("gba"), Some(Platform::Gba));
    assert_eq!(Platform::from_name("switch"), None);
    assert_eq!(Platform::from_name(""), None);
    assert_eq!(Platform::of("n64"), Some(Platform::N64));
}

#[test]
fn decompme_aliases_parse_exactly() {
    assert_eq!(Platform::from_decompme_name("n64"), Some(Platform::N64));
    assert_eq!(Platform::from_decompme_name("ps1"), Some(Platform::Psx));
    assert_eq!(Platform::from_decompme_name("ps2"), Some(Platform::Ps2));
    assert_eq!(Platform::from_decompme_name("psp"), Some(Platform::Psp));
    assert_eq!(Platform::from_decompme_name("gc_wii"), Some(Platform::GcWii));
    assert_eq!(Platform::from_decompme_name("gba"), Some(Platform::Gba));
    // aliases are matched exactly, not case-folded
    assert_eq!(Platform::from_decompme_name("N64"), None);
    assert_eq!(Platform::from_decompme_name("psx"), None);
    assert_eq!(Platform::from_decompme_name("switch"), None);
    assert_eq!(Platform::from_decompme_name("msdos"), None);
}

#[test]
fn arch_and_endianness_mapping() {
    assert_eq!(Platform::N64.arch(), Arch::Mips);
    assert_eq!(Platform::Psx.arch(), Arch::Mips);
    assert_eq!(Platform::Ps2.arch(), Arch::Mips);
    assert_eq!(Platform::Psp.arch(), Arch::Mips);
    assert_eq!(Platform::GcWii.arch(), Arch::Ppc);
    assert_eq!(Platform::Gba.arch(), Arch::Thumb);

    assert_eq!(Platform::N64.endianness(), Endianness::Big);
    assert_eq!(Platform::Psx.endianness(), Endianness::Little);
    assert_eq!(Platform::Ps2.endianness(), Endianness::Little);
    assert_eq!(Platform::Psp.endianness(), Endianness::Little);
    assert_eq!(Platform::GcWii.endianness(), Endianness::Big);
    assert_eq!(Platform::Gba.endianness(), Endianness::Little);
}

#[test]
fn insn_lengths() {
    assert_eq!(Arch::Mips.insn_length(), 4);
    assert_eq!(Arch::Ppc.insn_length(), 4);
    assert_eq!(Arch::Thumb.insn_length(), 2);
    assert_eq!(Arch::Thumb.standard_insn_length(), 2);
}

#[test]
fn platform_ids_round_trip() {
    let all = [
        Platform::N64,
        Platform::Psx,
        Platform::Ps2,
        Platform::Psp,
        Platform::GcWii,
        Platform::Gba,
    ];
    for p in all {
        assert_eq!(Platform::from_id(p.platform_id()), Some(p));
    }
    assert_eq!(Platform::from_id(-1), None);
    assert_eq!(Platform::from_id(6), None);
}
