use coddog::compare::{best_match, compare_binaries, Ratio};
use coddog::platform::Platform;
use coddog::symbol::{Symbol, SymbolDef};
use coddog::{diff_symbols, get_hashes, get_submatches};

fn words_to_be_bytes(words: &[u32]) -> Vec<u8> {
    let mut out = Vec::new();
    for w in words {
        out.push((w >> 24) as u8);
        out.push((w >> 16) as u8);
        out.push((w >> 8) as u8);
        out.push(*w as u8);
    }
    out
}

fn mips_symbol(name: &str, words: &[u32]) -> Symbol {
    Symbol::new(
        SymbolDef {
            name: name.to_string(),
            bytes: words_to_be_bytes(words),
            vram: 0x8000_0400,
            is_decompiled: false,
            platform: Platform::N64,
            symbol_idx: 0,
            data: Vec::new(),
        },
        &Vec::new(),
    )
}

// addiu $t0, $t0, imm: the same opcode whatever the immediate
fn addiu_words(imms: &[u16]) -> Vec<u32> {
    imms.iter().map(|i| 0x2508_0000 | *i as u32).collect()
}

// immediate-form instructions with pairwise distinct primary opcodes
fn distinct_op_words(ks: &[usize]) -> Vec<u32> {
    let ops: [u32; 16] = [
        0x09, 0x0D, 0x0C, 0x0A, 0x0B, 0x0E, 0x0F, 0x23, 0x2B, 0x20, 0x24, 0x21, 0x25, 0x28,
        0x29, 0x08,
    ];
    ks.iter().map(|k| (ops[*k] << 26) | (8 << 21) | (8 << 16) | 1).collect()
}

#[test]
fn self_similarity_is_perfect() {
    let a = mips_symbol("a", &addiu_words(&[1, 2, 3, 4]));
    let score = diff_symbols(&a, &a, Ratio { num: 5, den: 10 });
    assert_eq!(score.num, score.den);
    assert_eq!(score.den, 8);
}

#[test]
fn same_opcodes_different_bytes_is_clamped() {
    // lui and addiu immediates differ, so the bytes differ, while the
    // opcode vectors agree
    let a = mips_symbol("a", &[0x3C08_1111, 0x2508_2222]);
    let b = mips_symbol("b", &[0x3C08_3333, 0x2508_4444]);
    assert_eq!(a.opcodes, b.opcodes);
    assert_ne!(a.bytes, b.bytes);
    let score = diff_symbols(&a, &b, Ratio { num: 5, den: 10 });
    assert_eq!(score, Ratio { num: 9999, den: 10000 });
}

#[test]
fn one_appended_opcode_scores_as_two_byte_edits() {
    // ten opcodes against the same ten plus one more: the serialized
    // distance is two bytes, normalized over the summed opcode counts
    let a = mips_symbol("a", &distinct_op_words(&[0, 1, 2, 3, 4, 5, 6, 7, 8, 9]));
    let b = mips_symbol("b", &distinct_op_words(&[0, 1, 2, 3, 4, 5, 6, 7, 8, 9, 10]));
    assert_eq!(a.opcodes.len(), 10);
    assert_eq!(b.opcodes.len(), 11);
    let score = diff_symbols(&a, &b, Ratio { num: 8, den: 10 });
    assert_eq!(score, Ratio { num: 19, den: 21 });
}

#[test]
fn length_guard_cuts_hopeless_pairs() {
    let a = mips_symbol("a", &addiu_words(&[1, 2]));
    let b = mips_symbol("b", &addiu_words(&[1, 2, 3, 4, 5, 6, 7, 8, 9, 10]));
    // |2 - 10| / 12 is worse than 1 - 0.9
    let score = diff_symbols(&a, &b, Ratio { num: 9, den: 10 });
    assert_eq!(score, Ratio { num: 0, den: 1 });
}

#[test]
fn distance_above_bound_scores_zero() {
    let a = mips_symbol("a", &distinct_op_words(&[0, 1, 2, 3]));
    let b = mips_symbol("b", &distinct_op_words(&[7, 8, 9, 10]));
    let score = diff_symbols(&a, &b, Ratio { num: 9, den: 10 });
    assert_eq!(score, Ratio { num: 0, den: 1 });
}

#[test]
fn best_match_picks_first_maximum() {
    let q = mips_symbol("q", &addiu_words(&[1, 2, 3, 4]));
    let b0 = mips_symbol("b0", &addiu_words(&[9, 9, 9, 9]));
    let b1 = mips_symbol("b1", &addiu_words(&[1, 2, 3, 4]));
    let b2 = mips_symbol("b2", &addiu_words(&[1, 2, 3, 4]));
    let bs = vec![b0, b1, b2];
    let (i, score) = best_match(&q, &bs, Ratio { num: 5, den: 10 }).unwrap();
    assert_eq!(i, 1);
    assert_eq!(score.num, score.den);
    assert!(best_match(&q, &Vec::new(), Ratio { num: 5, den: 10 }).is_none());
}

#[test]
fn compare_binaries_reports_per_element_best_matches() {
    let a = vec![
        mips_symbol("a0", &distinct_op_words(&[0, 1, 2, 3])),
        mips_symbol("a1", &distinct_op_words(&[7, 8, 9, 10])),
        mips_symbol("tiny", &distinct_op_words(&[0])),
    ];
    let b = vec![
        mips_symbol("b0", &distinct_op_words(&[7, 8, 9, 10])),
        mips_symbol("b1", &distinct_op_words(&[0, 1, 2, 3])),
    ];
    let r = compare_binaries(&a, &b, Ratio { num: 5, den: 10 }, 2);
    // the one-opcode symbol falls under the minimum length
    assert_eq!(r.len(), 2);
    assert_eq!((r[0].0, r[0].1), (0, 1));
    assert_eq!(r[0].2.num, r[0].2.den);
    assert_eq!((r[1].0, r[1].1), (1, 0));
    assert_eq!(r[1].2.num, r[1].2.den);
    // an empty other side reports nothing
    let none = compare_binaries(&a, &Vec::new(), Ratio { num: 5, den: 10 }, 2);
    assert_eq!(none.len(), 0);
}

#[test]
fn submatches_group_consecutive_windows() {
    let h1: Vec<u64> = vec![10, 20, 30, 99];
    let h2: Vec<u64> = vec![70, 10, 20, 30];
    let ms = get_submatches(&h1, &h2, 8);
    assert_eq!(ms.len(), 1);
    assert_eq!(ms[0].offset1, 0);
    assert_eq!(ms[0].offset2, 1);
    // three matching windows of width eight span ten instructions
    assert_eq!(ms[0].length, 3 + 8 - 1);
}

#[test]
fn submatches_split_on_gaps() {
    let h1: Vec<u64> = vec![10, 99, 20, 30];
    let h2: Vec<u64> = vec![10, 20, 30];
    let ms = get_submatches(&h1, &h2, 4);
    assert_eq!(ms.len(), 2);
    assert_eq!((ms[0].offset1, ms[0].offset2, ms[0].length), (0, 0, 4));
    assert_eq!((ms[1].offset1, ms[1].offset2, ms[1].length), (2, 1, 5));
    // no shared hashes, no matches
    let none = get_submatches(&vec![1, 2], &vec![3, 4], 4);
    assert_eq!(none.len(), 0);
}

#[test]
fn window_hash_runs_detect_shared_stretches() {
    // forty opcodes each, sharing positions five through twenty-four
    let mut a: Vec<u16> = Vec::new();
    let mut b: Vec<u16> = Vec::new();
    for k in 0..40u16 {
        if (5..25).contains(&k) {
            a.push(1000 + k);
            b.push(1000 + k);
        } else {
            a.push(100 + k);
            b.push(200 + k);
        }
    }
    let wa = get_hashes(&a, 8);
    let wb = get_hashes(&b, 8);
    assert_eq!(wa.len(), 33);
    let runs = coddog::submatch::pair_runs(&wa, &wb, 0, 32, 1);
    assert_eq!(runs.len(), 1);
    assert_eq!(runs[0].start_qpos, 5);
    assert_eq!(runs[0].start_spos, 5);
    // a twenty-instruction stretch holds thirteen windows of width eight
    assert_eq!(runs[0].len_windows, 13);
}
