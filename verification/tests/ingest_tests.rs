use coddog::platform::Platform;
use coddog::read_elf;
use coddog::read_map;
use coddog::symbol::Symbol;
use object::write::{Object, Relocation, Symbol as WriteSymbol, SymbolSection};
use object::{
    Architecture, BinaryFormat, Endianness, RelocationFlags, SectionKind, SymbolFlags, SymbolKind,
    SymbolScope,
};

fn words_to_be_bytes(words: &[u32]) -> Vec<u8> {
    let mut out = Vec::new();
    for w in words {
        out.push((w >> 24) as u8);
        out.push((w >> 16) as u8);
        out.push((w >> 8) as u8);
        out.push(*w as u8);
    }
    out
}

// lui $t0, imm / addiu $t0, $t0, imm / jr $ra, with per-function immediates
fn mips_func(rt_rs: u32, hi: u16, lo: u16) -> Vec<u32> {
    vec![
        0x3C00_0000 | (rt_rs << 16) | hi as u32,
        0x2400_0000 | (rt_rs << 21) | (rt_rs << 16) | lo as u32,
        0x03E0_0008,
        0,
    ]
}

struct FuncDef {
    name: &'static str,
    words: Vec<u32>,
    reloc_target: Option<&'static str>,
}

fn build_mips_object(funcs: &[FuncDef]) -> Vec<u8> {
    let mut obj = Object::new(BinaryFormat::Elf, Architecture::Mips, Endianness::Big);
    let text = obj.add_section(Vec::new(), b".text".to_vec(), SectionKind::Text);
    let mut offsets = Vec::new();
    let mut code = Vec::new();
    for f in funcs {
        offsets.push(code.len() as u64);
        code.extend_from_slice(&words_to_be_bytes(&f.words));
    }
    obj.append_section_data(text, &code, 4);
    for (f, off) in funcs.iter().zip(offsets.iter()) {
        obj.add_symbol(WriteSymbol {
            name: f.name.as_bytes().to_vec(),
            value: *off,
            size: (f.words.len() * 4) as u64,
            kind: SymbolKind::Text,
            scope: SymbolScope::Dynamic,
            weak: false,
            section: SymbolSection::Section(text),
            flags: SymbolFlags::None,
        });
        if let Some(target) = f.reloc_target {
            let data_sym = obj.add_symbol(WriteSymbol {
                name: target.as_bytes().to_vec(),
                value: 0,
                size: 0,
                kind: SymbolKind::Data,
                scope: SymbolScope::Dynamic,
                weak: false,
                section: SymbolSection::Undefined,
                flags: SymbolFlags::None,
            });
            // a HI16/LO16 pair over the function's first two instructions
            obj.add_relocation(
                text,
                Relocation {
                    offset: *off,
                    symbol: data_sym,
                    addend: 0,
                    flags: RelocationFlags::Elf { r_type: object::elf::RelocationType(5) },
                },
            )
            .unwrap();
            obj.add_relocation(
                text,
                Relocation {
                    offset: *off + 4,
                    symbol: data_sym,
                    addend: 0,
                    flags: RelocationFlags::Elf { r_type: object::elf::RelocationType(6) },
                },
            )
            .unwrap();
        }
    }
    obj.write().unwrap()
}

fn find<'a>(syms: &'a [Symbol], name: &str) -> &'a Symbol {
    syms.iter().find(|s| s.name == name).unwrap()
}

#[test]
fn elf_symbols_fingerprint_like_the_raw_path() {
    let funcs = [
        FuncDef { name: "test_1", words: mips_func(8, 0x1234, 0x5678), reloc_target: Some("data_a") },
        FuncDef { name: "test_2", words: mips_func(8, 0x9ABC, 0x0EF0), reloc_target: Some("data_b") },
        FuncDef { name: "test_3", words: mips_func(9, 0x1234, 0x5678), reloc_target: Some("data_a") },
        FuncDef { name: "math_op_1", words: vec![0x012A_4021, 0x03E0_0008, 0, 0], reloc_target: None },
        FuncDef { name: "math_op_1_dup", words: vec![0x012A_4021, 0x03E0_0008, 0, 0], reloc_target: None },
    ];
    let elf = build_mips_object(&funcs);
    let symbols = read_elf(Platform::N64, &None, &elf).unwrap();
    assert!(!symbols.is_empty());

    let tf1 = find(&symbols, "test_1");
    let tf2 = find(&symbols, "test_2");
    let tf3 = find(&symbols, "test_3");

    // identical opcode skeletons throughout
    assert_eq!(tf1.opcode_hash, tf2.opcode_hash);
    assert_eq!(tf1.opcode_hash, tf3.opcode_hash);
    // relocation identities make differing immediates equivalent, while a
    // differing register stays distinct
    assert_eq!(tf1.equiv_hash, tf2.equiv_hash);
    assert_ne!(tf1.equiv_hash, tf3.equiv_hash);
    // bytes differ wherever immediates or registers do
    assert_ne!(tf1.exact_hash, tf2.exact_hash);
    assert_ne!(tf1.exact_hash, tf3.exact_hash);

    // trailing zero words are trimmed before fingerprinting
    assert_eq!(tf1.opcodes.len(), 3);

    let m1 = find(&symbols, "math_op_1");
    let m2 = find(&symbols, "math_op_1_dup");
    assert_eq!(m1.opcode_hash, m2.opcode_hash);
    assert_eq!(m1.equiv_hash, m2.equiv_hash);
    assert_eq!(m1.exact_hash, m2.exact_hash);
}

#[test]
fn two_ingestions_agree_row_for_row() {
    let funcs = [
        FuncDef { name: "test_1", words: mips_func(8, 0x1234, 0x5678), reloc_target: Some("data_a") },
        FuncDef { name: "test_2", words: mips_func(8, 0x9ABC, 0x0EF0), reloc_target: Some("data_b") },
    ];
    let elf = build_mips_object(&funcs);
    let first = read_elf(Platform::N64, &None, &elf).unwrap();
    let second = read_elf(Platform::N64, &None, &elf).unwrap();
    assert_eq!(first.len(), second.len());
    for (a, b) in first.iter().zip(second.iter()) {
        assert_eq!(a.name, b.name);
        assert_eq!(a.bytes, b.bytes);
        assert_eq!(a.opcodes, b.opcodes);
        assert_eq!(a.vram, b.vram);
        assert_eq!(a.exact_hash, b.exact_hash);
        assert_eq!(a.equiv_hash, b.equiv_hash);
        assert_eq!(a.opcode_hash, b.opcode_hash);
    }
}

#[test]
fn hidden_symbols_are_not_ingested() {
    let mut obj = Object::new(BinaryFormat::Elf, Architecture::Mips, Endianness::Big);
    let text = obj.add_section(Vec::new(), b".text".to_vec(), SectionKind::Text);
    let code = words_to_be_bytes(&mips_func(8, 1, 2));
    obj.append_section_data(text, &code, 4);
    obj.add_symbol(WriteSymbol {
        name: b"visible_func".to_vec(),
        value: 0,
        size: 8,
        kind: SymbolKind::Text,
        scope: SymbolScope::Dynamic,
        weak: false,
        section: SymbolSection::Section(text),
        flags: SymbolFlags::None,
    });
    obj.add_symbol(WriteSymbol {
        name: b"hidden_func".to_vec(),
        value: 8,
        size: 8,
        kind: SymbolKind::Text,
        scope: SymbolScope::Dynamic,
        weak: false,
        section: SymbolSection::Section(text),
        // STT_FUNC, global binding, STV_HIDDEN visibility
        flags: SymbolFlags::Elf {
            st_info: object::elf::SymbolInfo((1 << 4) | 2),
            st_other: object::elf::SymbolOther(2),
        },
    });
    let elf = obj.write().unwrap();
    let symbols = read_elf(Platform::N64, &None, &elf).unwrap();
    assert!(symbols.iter().any(|s| s.name == "visible_func"));
    assert!(!symbols.iter().any(|s| s.name == "hidden_func"));
}

#[test]
fn malformed_map_hex_is_rejected() {
    let rom = vec![0u8; 16];
    // a number token with a non-hexadecimal payload would abort the
    // outside parser; the library turns it into a parse failure
    let bad = "..seg          0xNOTHEX       0x10 load address 0x0000000000001000\n";
    assert!(read_map(Platform::N64, &None, &rom, bad).is_err());
    // seventeen significant digits overflow a 64-bit field
    let too_big = "..seg          0x12345678123456781       0x10 load address 0x1000\n";
    assert!(read_map(Platform::N64, &None, &rom, too_big).is_err());
}

#[test]
fn unparseable_files_are_one_error() {
    let err = read_elf(Platform::N64, &None, &[1, 2, 3, 4]);
    assert!(err.is_err());
}

#[test]
fn unmatched_function_lists_mark_decompilation() {
    let funcs = [
        FuncDef { name: "done_func", words: mips_func(8, 1, 2), reloc_target: None },
        FuncDef { name: "todo_func", words: mips_func(9, 3, 4), reloc_target: None },
    ];
    let elf = build_mips_object(&funcs);
    let unmatched = Some(vec!["todo_func".to_string()]);
    let symbols = read_elf(Platform::N64, &unmatched, &elf).unwrap();
    assert!(find(&symbols, "done_func").is_decompiled);
    assert!(!find(&symbols, "todo_func").is_decompiled);
}

fn halves_to_le_bytes(halves: &[u16]) -> Vec<u8> {
    let mut out = Vec::new();
    for h in halves {
        out.push(*h as u8);
        out.push((h >> 8) as u8);
    }
    out
}

#[test]
fn mapping_symbols_mark_literal_pools() {
    // two Thumb functions, each a load and a return followed by one
    // literal-pool word; the pools differ, the code does not
    let mut obj = Object::new(BinaryFormat::Elf, Architecture::Arm, Endianness::Little);
    let text = obj.add_section(Vec::new(), b".text".to_vec(), SectionKind::Text);
    let mut code = Vec::new();
    code.extend_from_slice(&halves_to_le_bytes(&[0x4800, 0x4770, 0x5678, 0x1234]));
    code.extend_from_slice(&halves_to_le_bytes(&[0x4800, 0x4770, 0xDEF0, 0x9ABC]));
    obj.append_section_data(text, &code, 4);
    for (name, off) in [("test_1", 0u64), ("test_2", 8u64)] {
        obj.add_symbol(WriteSymbol {
            name: name.as_bytes().to_vec(),
            value: off,
            size: 8,
            kind: SymbolKind::Text,
            scope: SymbolScope::Dynamic,
            weak: false,
            section: SymbolSection::Section(text),
            flags: SymbolFlags::None,
        });
    }
    for (name, off) in [("$t", 0u64), ("$d", 4u64), ("$t", 8u64), ("$d", 12u64)] {
        obj.add_symbol(WriteSymbol {
            name: name.as_bytes().to_vec(),
            value: off,
            size: 0,
            kind: SymbolKind::Label,
            scope: SymbolScope::Compilation,
            weak: false,
            section: SymbolSection::Section(text),
            flags: SymbolFlags::None,
        });
    }
    let elf = obj.write().unwrap();
    let symbols = read_elf(Platform::Gba, &None, &elf).unwrap();
    let t1 = find(&symbols, "test_1");
    let t2 = find(&symbols, "test_2");
    // inline data literals differ, yet the functions match on the opcode
    // and equivalence channels; only the exact channel separates them
    assert_eq!(t1.opcode_hash, t2.opcode_hash);
    assert_eq!(t1.equiv_hash, t2.equiv_hash);
    assert_ne!(t1.exact_hash, t2.exact_hash);
}

#[test]
fn raw_image_and_map_match_the_object_path() {
    // the ROM image holds the same two functions the object test uses,
    // at offsets 0x1000 and 0x1010
    let f1 = words_to_be_bytes(&mips_func(8, 0x1234, 0x5678));
    let f2 = words_to_be_bytes(&mips_func(8, 0x9ABC, 0x0EF0));
    let mut rom = vec![0u8; 0x1000];
    rom.extend_from_slice(&f1);
    rom.extend_from_slice(&f2);

    let map = "\
Linker script and memory map

..main          0x0000000080000400       0x20 load address 0x0000000000001000
 .text          0x0000000080000400       0x20 build/main.o
                0x0000000080000400                test_1
                0x0000000080000410                test_2
";
    let symbols = read_map(Platform::N64, &None, &rom, map).unwrap();
    assert_eq!(symbols.len(), 2);
    let t1 = find(&symbols, "test_1");
    let t2 = find(&symbols, "test_2");
    assert_eq!(t1.vram, 0x8000_0400);
    assert_eq!(t1.opcodes.len(), 3);
    // the raw path carries no relocations: opcode skeletons still match,
    // equivalence must separate the differing immediates
    assert_eq!(t1.opcode_hash, t2.opcode_hash);
    assert_ne!(t1.equiv_hash, t2.equiv_hash);
    assert_ne!(t1.exact_hash, t2.exact_hash);

    // and the same bytes fingerprint identically to an in-memory symbol
    let direct = Symbol::new(
        coddog::symbol::SymbolDef {
            name: "test_1".to_string(),
            bytes: f1.clone(),
            vram: 0x8000_0400,
            is_decompiled: false,
            platform: Platform::N64,
            symbol_idx: 0,
            data: Vec::new(),
        },
        &Vec::new(),
    );
    assert_eq!(t1.exact_hash, direct.exact_hash);
    assert_eq!(t1.equiv_hash, direct.equiv_hash);
    assert_eq!(t1.opcode_hash, direct.opcode_hash);
}
