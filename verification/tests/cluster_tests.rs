use coddog::cluster::get_clusters;
use coddog::compare::Ratio;
use coddog::platform::Platform;
use coddog::symbol::{Symbol, SymbolDef};

fn words_to_be_bytes(words: &[u32]) -> Vec<u8> {
    let mut out = Vec::new();
    for w in words {
        out.push((w >> 24) as u8);
        out.push((w >> 16) as u8);
        out.push((w >> 8) as u8);
        out.push(*w as u8);
    }
    out
}

fn mips_symbol(name: &str, words: &[u32]) -> Symbol {
    Symbol::new(
        SymbolDef {
            name: name.to_string(),
            bytes: words_to_be_bytes(words),
            vram: 0x8000_0400,
            is_decompiled: false,
            platform: Platform::N64,
            symbol_idx: 0,
            data: Vec::new(),
        },
        &Vec::new(),
    )
}

// immediate-form instructions with pairwise distinct primary opcodes
fn distinct_op_words(ks: &[usize]) -> Vec<u32> {
    let ops: [u32; 16] = [
        0x09, 0x0D, 0x0C, 0x0A, 0x0B, 0x0E, 0x0F, 0x23, 0x2B, 0x20, 0x24, 0x21, 0x25, 0x28,
        0x29, 0x08,
    ];
    ks.iter().map(|k| (ops[*k] << 26) | (8 << 21) | (8 << 16) | 1).collect()
}

#[test]
fn greedy_clusters_group_identical_shapes() {
    let family_a = distinct_op_words(&[0, 1, 2, 3]);
    let family_b = distinct_op_words(&[7, 8, 9, 10]);
    let symbols = vec![
        mips_symbol("a1", &family_a),
        mips_symbol("b1", &family_b),
        mips_symbol("a2", &family_a),
        mips_symbol("a3", &family_a),
        mips_symbol("b2", &family_b),
    ];
    let clusters = get_clusters(&symbols, Ratio { num: 9, den: 10 }, 1);
    assert_eq!(clusters.len(), 2);
    // largest cluster first
    assert_eq!(clusters[0].size(), 3);
    assert_eq!(clusters[1].size(), 2);
    assert_eq!(clusters[0].syms, vec![0, 2, 3]);
    assert_eq!(clusters[1].syms, vec![1, 4]);
}

#[test]
fn short_symbols_are_left_out() {
    let symbols = vec![
        mips_symbol("long", &distinct_op_words(&[0, 1, 2, 3])),
        mips_symbol("tiny", &distinct_op_words(&[0])),
    ];
    let clusters = get_clusters(&symbols, Ratio { num: 9, den: 10 }, 2);
    assert_eq!(clusters.len(), 1);
    assert_eq!(clusters[0].syms, vec![0]);
}
