use coddog::platform::Platform;
use coddog::reloc::{CanonReloc, CoddogError, RawReloc, canonicalize_relocs, find_reloc};
use coddog::symbol::{Symbol, SymbolDef};
use coddog::platform::Arch;

fn words_to_be_bytes(words: &[u32]) -> Vec<u8> {
    let mut out = Vec::new();
    for w in words {
        out.push((w >> 24) as u8);
        out.push((w >> 16) as u8);
        out.push((w >> 8) as u8);
        out.push(*w as u8);
    }
    out
}

fn words_to_le_half_bytes(halves: &[u16]) -> Vec<u8> {
    let mut out = Vec::new();
    for h in halves {
        out.push(*h as u8);
        out.push((h >> 8) as u8);
    }
    out
}

fn mips_symbol(name: &str, words: &[u32], relocs: &Vec<CanonReloc>) -> Symbol {
    Symbol::new(
        SymbolDef {
            name: name.to_string(),
            bytes: words_to_be_bytes(words),
            vram: 0x8000_0400,
            is_decompiled: false,
            platform: Platform::N64,
            symbol_idx: 0,
            data: Vec::new(),
        },
        relocs,
    )
}

// lui $t0, imm
fn lui_t0(imm: u16) -> u32 {
    0x3C08_0000 | imm as u32
}

// addiu $t0, $t0, imm
fn addiu_t0(imm: u16) -> u32 {
    0x2508_0000 | imm as u32
}

// jr $ra
const JR_RA: u32 = 0x03E0_0008;

#[test]
fn trailing_zero_instructions_are_trimmed() {
    let relocs = Vec::new();
    let with_nops = mips_symbol("a", &[lui_t0(1), JR_RA, 0, 0], &relocs);
    let without = mips_symbol("a", &[lui_t0(1), JR_RA], &relocs);
    assert_eq!(with_nops.bytes, without.bytes);
    assert_eq!(with_nops.opcodes.len(), 2);
    assert_eq!(with_nops.exact_hash, without.exact_hash);
    assert_eq!(with_nops.equiv_hash, without.equiv_hash);
    assert_eq!(with_nops.opcode_hash, without.opcode_hash);
}

#[test]
fn raw_opcode_vectors_match_the_symbol_vector() {
    // without data marks or trailing zeros the raw opcode walk and the
    // symbol's stored vector agree
    let words = [lui_t0(0x1234), addiu_t0(0x5678), JR_RA];
    let bytes = words_to_be_bytes(&words);
    let raw = coddog::arch::get_opcodes_raw(&bytes, Platform::N64);
    let sym = mips_symbol("a", &words, &Vec::new());
    assert_eq!(raw, sym.opcodes);
    assert_eq!(raw.len(), 3);
    // the two distinct instructions decode to distinct opcode ids
    assert_ne!(raw[0], raw[1]);
}

#[test]
fn fingerprints_are_deterministic() {
    let relocs = Vec::new();
    let a = mips_symbol("a", &[lui_t0(0x1234), addiu_t0(0x5678), JR_RA], &relocs);
    let b = mips_symbol("b", &[lui_t0(0x1234), addiu_t0(0x5678), JR_RA], &relocs);
    assert_eq!(a.exact_hash, b.exact_hash);
    assert_eq!(a.equiv_hash, b.equiv_hash);
    assert_eq!(a.opcode_hash, b.opcode_hash);
    assert_eq!(a.opcodes, b.opcodes);
}

#[test]
fn mips_same_skeleton_different_operands() {
    let relocs = Vec::new();
    let t1 = mips_symbol("test_1", &[lui_t0(0x1234), addiu_t0(0x5678), JR_RA], &relocs);
    let t2 = mips_symbol("test_2", &[lui_t0(0x9ABC), addiu_t0(0xDEF0), JR_RA], &relocs);
    // same registers, different immediates: same opcode skeleton,
    // different equivalence and exact fingerprints without relocations
    assert_eq!(t1.opcode_hash, t2.opcode_hash);
    assert_ne!(t1.equiv_hash, t2.equiv_hash);
    assert_ne!(t1.exact_hash, t2.exact_hash);
}

#[test]
fn mips_relocated_operands_hash_equivalent() {
    // a HI16/LO16 pair over the first two instructions, referring to
    // different external data in each function
    let relocs_1 = vec![
        CanonReloc { offset: 0, target: 7, addend: 0x1234_5678, kind: 5 },
        CanonReloc { offset: 4, target: 7, addend: 0x1234_5678, kind: 6 },
    ];
    let relocs_2 = vec![
        CanonReloc { offset: 0, target: 9, addend: -0x6544, kind: 5 },
        CanonReloc { offset: 4, target: 9, addend: -0x6544, kind: 6 },
    ];
    let t1 = mips_symbol("test_1", &[lui_t0(0x1234), addiu_t0(0x5678), JR_RA], &relocs_1);
    let t2 = mips_symbol("test_2", &[lui_t0(0x9ABC), addiu_t0(0xDEF0), JR_RA], &relocs_2);
    // dense relocation identifiers depend only on order of first
    // appearance, so the two functions hash equivalent
    assert_eq!(t1.opcode_hash, t2.opcode_hash);
    assert_eq!(t1.equiv_hash, t2.equiv_hash);
    assert_ne!(t1.exact_hash, t2.exact_hash);

    // same immediates but a different register: not equivalent
    let t3 = mips_symbol(
        "test_3",
        &[0x3C09_0000 | 0x1234, 0x2529_0000 | 0x5678, JR_RA],
        &relocs_1,
    );
    assert_eq!(t1.opcode_hash, t3.opcode_hash);
    assert_ne!(t1.equiv_hash, t3.equiv_hash);
}

#[test]
fn mips_exact_duplicate_matches_on_all_channels() {
    let relocs = Vec::new();
    let words = [0x012A_4021, 0x0149_4022, JR_RA];  // addu, sub-ish, jr
    let a = mips_symbol("math_op_1", &words, &relocs);
    let b = mips_symbol("math_op_1_dup", &words, &relocs);
    assert_eq!(a.opcode_hash, b.opcode_hash);
    assert_eq!(a.equiv_hash, b.equiv_hash);
    assert_eq!(a.exact_hash, b.exact_hash);
}

#[test]
fn ppc_fingerprints() {
    let relocs = Vec::new();
    let addi_r3 = 0x3863_0001u32;  // addi r3, r3, 1
    let addi_r4 = 0x3884_0001u32;  // addi r4, r4, 1
    let blr = 0x4E80_0020u32;
    let mk = |name: &str, words: &[u32]| {
        Symbol::new(
            SymbolDef {
                name: name.to_string(),
                bytes: words_to_be_bytes(words),
                vram: 0x8000_0000,
                is_decompiled: false,
                platform: Platform::GcWii,
                symbol_idx: 0,
                data: Vec::new(),
            },
            &relocs,
        )
    };
    let t1 = mk("test_1", &[addi_r3, blr]);
    let t2 = mk("test_2", &[addi_r3, blr]);
    let t3 = mk("test_3", &[addi_r4, blr]);
    // identical functions match on every channel
    assert_eq!(t1.opcode_hash, t2.opcode_hash);
    assert_eq!(t1.equiv_hash, t2.equiv_hash);
    assert_eq!(t1.exact_hash, t2.exact_hash);
    // same opcode, different register: opcode channel only
    assert_eq!(t1.opcode_hash, t3.opcode_hash);
    assert_ne!(t1.equiv_hash, t3.equiv_hash);
    assert_ne!(t1.exact_hash, t3.exact_hash);
}

#[test]
fn thumb_fingerprints() {
    let relocs = Vec::new();
    let movs_r0_1 = 0x2001u16;  // movs r0, #1
    let movs_r0_2 = 0x2002u16;  // movs r0, #2
    let movs_r1_1 = 0x2101u16;  // movs r1, #1
    let bx_lr = 0x4770u16;
    let mk = |name: &str, halves: &[u16]| {
        Symbol::new(
            SymbolDef {
                name: name.to_string(),
                bytes: words_to_le_half_bytes(halves),
                vram: 0x0800_0000,
                is_decompiled: false,
                platform: Platform::Gba,
                symbol_idx: 0,
                data: Vec::new(),
            },
            &relocs,
        )
    };
    let t1 = mk("test_1", &[movs_r0_1, bx_lr]);
    let t2 = mk("test_2", &[movs_r0_2, bx_lr]);
    let t3 = mk("test_3", &[movs_r1_1, bx_lr]);
    // same opcode skeleton whatever the immediate
    assert_eq!(t1.opcode_hash, t2.opcode_hash);
    assert_eq!(t1.opcode_hash, t3.opcode_hash);
    // a differing immediate perturbs the equivalence hash without a
    // relocation; a differing register always does
    assert_ne!(t1.equiv_hash, t2.equiv_hash);
    assert_ne!(t1.equiv_hash, t3.equiv_hash);
    // identical code at a different address hashes the same
    let t4 = Symbol::new(
        SymbolDef {
            name: "test_4".to_string(),
            bytes: words_to_le_half_bytes(&[movs_r0_1, bx_lr]),
            vram: 0x0800_1000,
            is_decompiled: false,
            platform: Platform::Gba,
            symbol_idx: 3,
            data: Vec::new(),
        },
        &relocs,
    );
    assert_eq!(t1.equiv_hash, t4.equiv_hash);
    assert_eq!(t1.exact_hash, t4.exact_hash);
}

#[test]
fn ppc_relocated_immediates_are_suppressed() {
    // addi r3, r3, imm with a low-half address relocation on it: the
    // immediate is pinned by the relocation identity, so functions
    // differing only there hash equivalent
    let relocs_1 = vec![CanonReloc { offset: 0, target: 7, addend: 0, kind: 4 }];
    let relocs_2 = vec![CanonReloc { offset: 0, target: 9, addend: 4, kind: 4 }];
    let mk = |name: &str, words: &[u32], relocs: &Vec<CanonReloc>| {
        Symbol::new(
            SymbolDef {
                name: name.to_string(),
                bytes: words_to_be_bytes(words),
                vram: 0x8000_0000,
                is_decompiled: false,
                platform: Platform::GcWii,
                symbol_idx: 0,
                data: Vec::new(),
            },
            relocs,
        )
    };
    let t1 = mk("test_1", &[0x3863_0001, 0x4E80_0020], &relocs_1);
    let t2 = mk("test_2", &[0x3863_0002, 0x4E80_0020], &relocs_2);
    assert_eq!(t1.equiv_hash, t2.equiv_hash);
    assert_ne!(t1.exact_hash, t2.exact_hash);
    // the register operand is never suppressed
    let t3 = mk("test_3", &[0x3884_0001, 0x4E80_0020], &relocs_1);
    assert_ne!(t1.equiv_hash, t3.equiv_hash);
}

#[test]
fn thumb_relocated_immediates_are_suppressed() {
    let relocs_1 = vec![CanonReloc { offset: 0, target: 7, addend: 0, kind: 10 }];
    let relocs_2 = vec![CanonReloc { offset: 0, target: 9, addend: 8, kind: 10 }];
    let mk = |name: &str, halves: &[u16], relocs: &Vec<CanonReloc>| {
        Symbol::new(
            SymbolDef {
                name: name.to_string(),
                bytes: words_to_le_half_bytes(halves),
                vram: 0x0800_0000,
                is_decompiled: false,
                platform: Platform::Gba,
                symbol_idx: 0,
                data: Vec::new(),
            },
            relocs,
        )
    };
    let t1 = mk("test_1", &[0x2001, 0x4770], &relocs_1);
    let t2 = mk("test_2", &[0x2002, 0x4770], &relocs_2);
    assert_eq!(t1.equiv_hash, t2.equiv_hash);
    assert_ne!(t1.exact_hash, t2.exact_hash);
    // a different destination register stays visible
    let t3 = mk("test_3", &[0x2101, 0x4770], &relocs_1);
    assert_ne!(t1.equiv_hash, t3.equiv_hash);
}

#[test]
fn hi16_lo16_pairs_are_rebuilt() {
    let raw = vec![
        RawReloc { offset: 0, target: 7, addend: 0x1234, kind: 5 },
        RawReloc { offset: 4, target: 7, addend: 0x5678, kind: 6 },
    ];
    let canon = canonicalize_relocs(&raw, Arch::Mips).unwrap();
    let full = (0x1234i64 << 16) + 0x5678;
    assert_eq!(canon.len(), 2);
    assert_eq!(canon[0], CanonReloc { offset: 0, target: 7, addend: full, kind: 5 });
    assert_eq!(canon[1], CanonReloc { offset: 4, target: 7, addend: full, kind: 6 });

    // a negative low half subtracts from the high half
    let raw = vec![
        RawReloc { offset: 0, target: 7, addend: 0x1235, kind: 5 },
        RawReloc { offset: 4, target: 7, addend: 0x9ABC, kind: 6 },
    ];
    let canon = canonicalize_relocs(&raw, Arch::Mips).unwrap();
    let full = (0x1235i64 << 16) + (0x9ABCu16 as i16) as i64;
    assert_eq!(canon[0].addend, full);
    assert_eq!(canon[1].addend, full);
}

#[test]
fn inline_data_is_skipped_by_the_equivalence_hash() {
    // ldr r0, [pc, #0] / bx lr / one literal-pool word, marked as data
    let mk = |name: &str, pool: (u16, u16), marks: Vec<bool>| {
        Symbol::new(
            SymbolDef {
                name: name.to_string(),
                bytes: words_to_le_half_bytes(&[0x4800, 0x4770, pool.0, pool.1]),
                vram: 0x0800_0000,
                is_decompiled: false,
                platform: Platform::Gba,
                symbol_idx: 0,
                data: marks,
            },
            &Vec::new(),
        )
    };
    let marks = vec![false, false, true, true];
    let t1 = mk("test_1", (0x5678, 0x1234), marks.clone());
    let t2 = mk("test_2", (0xDEF0, 0x9ABC), marks.clone());
    // the pool chunks carry the data marker, so differing literals leave
    // the opcode and equivalence fingerprints alone
    assert_eq!(t1.opcode_hash, t2.opcode_hash);
    assert_eq!(t1.equiv_hash, t2.equiv_hash);
    assert_ne!(t1.exact_hash, t2.exact_hash);
    // without the marks the pool words count as instructions and separate
    // the streams
    let u1 = mk("test_1", (0x5678, 0x1234), Vec::new());
    let u2 = mk("test_2", (0xDEF0, 0x9ABC), Vec::new());
    assert_ne!(u1.equiv_hash, u2.equiv_hash);
    // marked and unmarked fingerprints differ as well
    assert_ne!(t1.opcode_hash, u1.opcode_hash);
}

#[test]
fn intervening_relocations_clear_a_pending_high_half() {
    // a jump relocation between the halves: the low half pairs with
    // nothing and stands alone, sign-extended
    let raw = vec![
        RawReloc { offset: 0, target: 7, addend: 0x1234, kind: 5 },
        RawReloc { offset: 4, target: 8, addend: 0x40, kind: 4 },
        RawReloc { offset: 8, target: 7, addend: 0x9ABC, kind: 6 },
    ];
    let canon = canonicalize_relocs(&raw, Arch::Mips).unwrap();
    assert_eq!(canon.len(), 2);
    // the jump target is copied through untouched
    assert_eq!(canon[0], CanonReloc { offset: 4, target: 8, addend: 0x40, kind: 4 });
    // the orphaned low half keeps only its own sign-extended addend
    assert_eq!(canon[1], CanonReloc {
        offset: 8,
        target: 7,
        addend: (0x9ABCu16 as i16) as i64,
        kind: 6,
    });
}

#[test]
fn supported_kinds_are_copied_through() {
    let raw = vec![RawReloc { offset: 12, target: 3, addend: -8, kind: 10 }];
    let canon = canonicalize_relocs(&raw, Arch::Ppc).unwrap();
    assert_eq!(canon.len(), 1);
    assert_eq!(canon[0], CanonReloc { offset: 12, target: 3, addend: -8, kind: 10 });
}

#[test]
fn unsupported_relocations_are_rejected() {
    // an absolute MIPS word relocation is not canonicalizable
    let raw = vec![RawReloc { offset: 0, target: 1, addend: 0, kind: 2 }];
    assert_eq!(canonicalize_relocs(&raw, Arch::Mips), Err(CoddogError::UnsupportedRelocation));
    // unknown PPC kinds are rejected too
    let raw = vec![RawReloc { offset: 0, target: 1, addend: 0, kind: 77 }];
    assert_eq!(canonicalize_relocs(&raw, Arch::Ppc), Err(CoddogError::UnsupportedRelocation));
}

#[test]
fn thumb_relocations_cover_the_second_half_word() {
    let raw = vec![RawReloc { offset: 8, target: 3, addend: 0, kind: 10 }];
    let canon = canonicalize_relocs(&raw, Arch::Thumb).unwrap();
    assert_eq!(canon.len(), 2);
    assert_eq!(canon[0].offset, 8);
    assert_eq!(canon[1].offset, 10);
    assert_eq!(find_reloc(&canon, 10).unwrap().target, 3);
    assert!(find_reloc(&canon, 12).is_none());
}

#[test]
fn window_hashes_counts_and_padding() {
    let relocs = Vec::new();
    let sym = mips_symbol(
        "w",
        &[lui_t0(1), addiu_t0(2), JR_RA, 0x012A_4021, 0x0149_4022],
        &relocs,
    );
    assert_eq!(sym.opcodes.len(), 5);
    // n - w + 1 windows when the vector is long enough
    assert_eq!(sym.get_opcode_hashes(2).len(), 4);
    assert_eq!(sym.get_fuzzy_hashes(5).len(), 1);
    // shorter than one window: zero-padded, exactly one hash
    assert_eq!(sym.get_opcode_hashes(9).len(), 1);
    // byte windows pad the same way
    assert_eq!(sym.get_exact_hashes(4).len(), sym.bytes.len() - 4 + 1);
    // the single padded window hashes like an explicitly padded vector
    let short = coddog::get_hashes(&vec![7u16, 8u16], 4);
    let padded = coddog::get_hashes(&vec![7u16, 8u16, 0u16, 0u16], 4);
    assert_eq!(short.len(), 1);
    assert_eq!(short[0], padded[0]);
}
