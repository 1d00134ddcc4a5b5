//! Instruction decoding, one implementation per architecture.
//!
//! The outside decoder of each architecture is consulted for what only it
//! knows: which instruction a word encodes (the opcode id) and which operands
//! that instruction carries. Operand *values* on MIPS are plain bit fields of
//! the instruction word and are extracted here in verified code; on PPC and
//! Thumb each operand arrives as its rendered debug form, an opaque byte
//! string whose leading variant name classifies it.
//!
//! The classification of operands into register-like (always part of the
//! equivalence stream) and immediate-like (suppressed when a relocation
//! applies to the instruction) is the hinge of the equivalence hash and is
//! verified code in this module, one table per architecture.
//!
//! Thumb code is walked in half-word steps: a 32-bit long branch decodes as
//! its two halves, each with its own opcode id. The relocation canonicalizer
//! covers `address + 2` for Thumb, so operand suppression still reaches the
//! branch's second half; inline data inside Thumb code is handled by the
//! fingerprinting layer's data marks rather than by instruction sizes.

use crate::hashing::{spec_hash_bytes, hash_byte_range};
use crate::platform::{Arch, Endianness, Platform, spec_arch, spec_endianness, spec_insn_length,
    spec_platform_id};
use crate::text::{bytes_eq, has_prefix, spec_has_prefix};
use vstd::prelude::*;
use vstd::string::StringSliceAdditionalSpecFns;

verus! {

// ---------------------------------------------------------------------------
// Reading instruction words
// ---------------------------------------------------------------------------

/// The 16-bit word at byte offset `off`.
pub open spec fn spec_read_u16(s: Seq<u8>, off: int, e: Endianness) -> u16
    recommends
        0 <= off,
        off + 2 <= s.len(),
{
    match e {
        Endianness::Big => ((s[off] as u16) << 8) | (s[off + 1] as u16),
        Endianness::Little => ((s[off + 1] as u16) << 8) | (s[off] as u16),
    }
}

/// The 32-bit word at byte offset `off`.
pub open spec fn spec_read_u32(s: Seq<u8>, off: int, e: Endianness) -> u32
    recommends
        0 <= off,
        off + 4 <= s.len(),
{
    match e {
        Endianness::Big => ((s[off] as u32) << 24) | ((s[off + 1] as u32) << 16) | ((s[off
            + 2] as u32) << 8) | (s[off + 3] as u32),
        Endianness::Little => ((s[off + 3] as u32) << 24) | ((s[off + 2] as u32) << 16) | ((s[off
            + 1] as u32) << 8) | (s[off] as u32),
    }
}

/// Read the 16-bit word at byte offset `off`.
pub fn read_u16(s: &[u8], off: usize, e: Endianness) -> (r: u16)
    requires
        off + 2 <= s@.len(),
    ensures
        r == spec_read_u16(s@, off as int, e),
{
    // bind the slice length so its bound is in scope for the prover
    let _len: usize = s.len();
    match e {
        Endianness::Big => ((s[off] as u16) << 8u16) | (s[off + 1] as u16),
        Endianness::Little => ((s[off + 1] as u16) << 8u16) | (s[off] as u16),
    }
}

/// Read the 32-bit word at byte offset `off`.
pub fn read_u32(s: &[u8], off: usize, e: Endianness) -> (r: u32)
    requires
        off + 4 <= s@.len(),
    ensures
        r == spec_read_u32(s@, off as int, e),
{
    // bind the slice length so its bound is in scope for the prover
    let _len: usize = s.len();
    match e {
        Endianness::Big => ((s[off] as u32) << 24u32) | ((s[off + 1] as u32) << 16u32) | ((s[off
            + 2] as u32) << 8u32) | (s[off + 3] as u32),
        Endianness::Little => ((s[off + 3] as u32) << 24u32) | ((s[off + 2] as u32) << 16u32) | ((
        s[off + 1] as u32) << 8u32) | (s[off] as u32),
    }
}

// ---------------------------------------------------------------------------
// Trusted decoder results
// ---------------------------------------------------------------------------

/// Instruction id that the MIPS decoder assigns to `word` under the
/// instruction-set flavor of the platform with id `flavor`.
pub uninterp spec fn mips_insn_id(word: u32, flavor: i32) -> u32;

/// Operand kind codes of the MIPS instruction `word` (the decoder's operand
/// type enumeration, in operand order).
pub uninterp spec fn mips_insn_kinds(word: u32, flavor: i32) -> Seq<u32>;

/// Opcode that the PPC decoder (Gekko/Broadway extensions) detects in `word`.
pub uninterp spec fn ppc_opcode_of(word: u32) -> u16;

/// Rendered basic-form arguments of the PPC instruction `word`, one byte
/// string per argument.
pub uninterp spec fn ppc_args_of(word: u32) -> Seq<Seq<u8>>;

/// Opcode that the Thumb decoder (ARMv4T, UAL syntax) finds in `code`.
pub uninterp spec fn thumb_opcode_of(code: u16) -> u16;

/// Rendered arguments of the Thumb instruction `code`, one byte string per
/// argument.
pub uninterp spec fn thumb_args_of(code: u16) -> Seq<Seq<u8>>;

/// Relies on rabbitizer's `Instruction::new` and its descriptor accessors
/// `unique_id` and `get_operands_slice`: the decoded instruction id and its
/// operand kind list are functions of the word and the instruction-set
/// flavor alone. The id enumeration has far fewer than 0x10000 entries.
#[verifier::external_body]
fn mips_decode(word: u32, p: Platform) -> (r: (u32, Vec<u32>))
    ensures
        r.0 == mips_insn_id(word, spec_platform_id(p)),
        r.0 < 0x10000,
        r.1@ == mips_insn_kinds(word, spec_platform_id(p)),
{
    let cat = match p {
        Platform::Psx => rabbitizer::InstrCategory::R3000GTE,
        Platform::Ps2 => rabbitizer::InstrCategory::R5900,
        Platform::Psp => rabbitizer::InstrCategory::R4000ALLEGREX,
        _ => rabbitizer::InstrCategory::CPU,
    };
    let insn = rabbitizer::Instruction::new(word, 0, cat);
    let kinds = insn.get_operands_slice().iter().map(|k| *k as u32).collect();
    (insn.unique_id as u32, kinds)
}

/// Relies on powerpc's `Ins::new` (with `Extensions::gekko_broadway`),
/// `Opcode::detect` and `ParsedIns::args_iter`: the opcode and the rendered
/// basic-form arguments are functions of the word alone.
#[verifier::external_body]
fn ppc_decode(word: u32) -> (r: (u16, Vec<Vec<u8>>))
    ensures
        r.0 == ppc_opcode_of(word),
        r.1.deep_view() == ppc_args_of(word),
{
    let ins = powerpc::Ins::new(word, powerpc::Extensions::gekko_broadway());
    let args = ins.basic().args_iter().map(|a| format!("{a:?}").into_bytes()).collect();
    (ins.op as u16, args)
}

/// Relies on unarm's `thumb::Ins::new` and `ParsedIns::args_iter`
/// (ARMv4T, UAL syntax): the opcode and the rendered arguments are
/// functions of the half-word alone.
#[verifier::external_body]
fn thumb_decode(code: u16) -> (r: (u16, Vec<Vec<u8>>))
    ensures
        r.0 == thumb_opcode_of(code),
        r.1.deep_view() == thumb_args_of(code),
{
    let flags = unarm::ParseFlags { ual: true, version: unarm::ArmVersion::V4T };
    let ins = unarm::thumb::Ins::new(code as u32, &flags);
    let args = ins.parse(&flags).args_iter().map(|a| format!("{a:?}").into_bytes()).collect();
    (ins.op as u16, args)
}

// ---------------------------------------------------------------------------
// Opcode vectors
// ---------------------------------------------------------------------------

/// The instruction word of chunk `i` of a symbol's bytes (a half-word on
/// Thumb, widened).
pub open spec fn spec_insn_word(bytes: Seq<u8>, i: int, p: Platform) -> u32
    recommends
        0 <= i,
        (i + 1) * spec_insn_length(spec_arch(p)) <= bytes.len(),
{
    match spec_arch(p) {
        Arch::Thumb => spec_read_u16(bytes, 2 * i, spec_endianness(p)) as u32,
        _ => spec_read_u32(bytes, 4 * i, spec_endianness(p)),
    }
}

/// Opcode id of chunk `i` of a symbol's bytes.
pub open spec fn spec_insn_opcode(bytes: Seq<u8>, i: int, p: Platform) -> u16 {
    match spec_arch(p) {
        Arch::Mips => mips_insn_id(spec_insn_word(bytes, i, p), spec_platform_id(p)) as u16,
        Arch::Ppc => ppc_opcode_of(spec_insn_word(bytes, i, p)),
        Arch::Thumb => thumb_opcode_of(spec_insn_word(bytes, i, p) as u16),
    }
}

/// Number of whole instruction chunks in a byte string.
pub open spec fn spec_num_insns(bytes: Seq<u8>, p: Platform) -> int {
    bytes.len() as int / spec_insn_length(spec_arch(p)) as int
}

/// The opcode vector of a symbol's bytes: one opcode id per whole
/// instruction-length chunk, in order. A trailing partial chunk is ignored.
pub open spec fn spec_opcodes(bytes: Seq<u8>, p: Platform) -> Seq<u16> {
    Seq::new(spec_num_insns(bytes, p) as nat, |i: int| spec_insn_opcode(bytes, i, p))
}

/// Decode the opcode id of chunk `i`.
pub(crate) fn insn_opcode(bytes: &[u8], i: usize, p: Platform) -> (r: u16)
    requires
        (i + 1) * spec_insn_length(spec_arch(p)) <= bytes@.len(),
    ensures
        r == spec_insn_opcode(bytes@, i as int, p),
{
    // bind the slice length so its bound is in scope for the prover
    let _len: usize = bytes.len();
    let e = p.endianness();
    match p.arch() {
        Arch::Mips => {
            proof {
                assert((i + 1) * spec_insn_length(spec_arch(p)) == 4 * i + 4)
                    by (nonlinear_arith)
                    requires spec_insn_length(spec_arch(p)) == 4;
            }
            let word = read_u32(bytes, 4 * i, e);
            let (id, _) = mips_decode(word, p);
            id as u16
        },
        Arch::Ppc => {
            proof {
                assert((i + 1) * spec_insn_length(spec_arch(p)) == 4 * i + 4)
                    by (nonlinear_arith)
                    requires spec_insn_length(spec_arch(p)) == 4;
            }
            let word = read_u32(bytes, 4 * i, e);
            let (op, _) = ppc_decode(word);
            op
        },
        Arch::Thumb => {
            proof {
                assert((i + 1) * spec_insn_length(spec_arch(p)) == 2 * i + 2)
                    by (nonlinear_arith)
                    requires spec_insn_length(spec_arch(p)) == 2;
            }
            let code = read_u16(bytes, 2 * i, e);
            let (op, _) = thumb_decode(code);
            op
        },
    }
}

/// The opcode vector of raw symbol bytes: each whole instruction-length
/// chunk is decoded and its opcode id recorded, in order.
pub fn get_opcodes_raw(bytes: &[u8], p: Platform) -> (r: Vec<u16>)
    ensures
        r@ == spec_opcodes(bytes@, p),
{
    let insn_length = p.arch().insn_length();
    let n = bytes.len() / insn_length;
    let mut r: Vec<u16> = Vec::new();
    let mut i: usize = 0;
    while i < n
        invariant
            n == spec_num_insns(bytes@, p),
            insn_length == spec_insn_length(spec_arch(p)),
            i <= n,
            r@ =~= spec_opcodes(bytes@, p).subrange(0, i as int),
        decreases n - i,
    {
        proof {
            assert((i + 1) * insn_length <= n * insn_length) by (nonlinear_arith)
                requires
                    i + 1 <= n,
                    insn_length >= 1,
            ;
            assert(n * insn_length <= bytes@.len()) by (nonlinear_arith)
                requires
                    n == bytes@.len() as int / insn_length as int,
                    insn_length >= 1,
            ;
        }
        let op = insn_opcode(bytes, i, p);
        r.push(op);
        i = i + 1;
        proof {
            assert(r@ =~= spec_opcodes(bytes@, p).subrange(0, i as int));
        }
    }
    proof {
        assert(r@ =~= spec_opcodes(bytes@, p));
    }
    r
}

// ---------------------------------------------------------------------------
// MIPS operand classification and tokens
// ---------------------------------------------------------------------------

/// MIPS operand kind code: jump target label.
pub const MIPS_KIND_LABEL: u32 = 18;

/// MIPS operand kind code: 16-bit immediate.
pub const MIPS_KIND_IMMEDIATE: u32 = 19;

/// MIPS operand kind code: branch target label.
pub const MIPS_KIND_BRANCH_TARGET: u32 = 20;

/// MIPS operand kind code: `offset(base)` compound.
pub const MIPS_KIND_IMMEDIATE_BASE: u32 = 21;

/// The raw bit field of operand kind `kind` in the MIPS word `word`.
///
/// Register-like kinds select their 5-bit register field; immediates, jump
/// indices and code fields select their literal bits. Kinds outside the
/// core set — coprocessor-extension operands of the PSX, PS2 and PSP
/// flavors — are pinned by the whole instruction word, a slightly finer
/// equivalence than comparing each such operand's decoded value.
pub open spec fn spec_mips_field(kind: u32, word: u32) -> u64 {
    if kind == 1 {  // rs
        ((word >> 21) & 31) as u64
    } else if kind == 2 {  // rt
        ((word >> 16) & 31) as u64
    } else if kind == 3 {  // rd
        ((word >> 11) & 31) as u64
    } else if kind == 4 {  // sa
        ((word >> 6) & 31) as u64
    } else if kind == 5 {  // literal zero register
        0u64
    } else if kind == 6 {  // cop0d
        ((word >> 11) & 31) as u64
    } else if kind == 7 {  // fs
        ((word >> 11) & 31) as u64
    } else if kind == 8 {  // ft
        ((word >> 16) & 31) as u64
    } else if kind == 9 {  // fd
        ((word >> 6) & 31) as u64
    } else if kind == 10 {  // cop1cs
        ((word >> 11) & 31) as u64
    } else if kind == 11 {  // cop2t
        ((word >> 16) & 31) as u64
    } else if kind == 12 {  // cop2cd
        ((word >> 11) & 31) as u64
    } else if kind == 13 {  // op
        ((word >> 16) & 31) as u64
    } else if kind == 14 {  // hint
        ((word >> 16) & 31) as u64
    } else if kind == 15 {  // code
        ((word >> 6) & 0xFFFFF) as u64
    } else if kind == 16 {  // code (lower half)
        ((word >> 6) & 0x3FF) as u64
    } else if kind == 17 {  // raw coprocessor payload
        (word & 0x1FFFFFF) as u64
    } else if kind == MIPS_KIND_LABEL {  // 26-bit jump index
        (word & 0x3FFFFFF) as u64
    } else if kind == MIPS_KIND_IMMEDIATE {
        (word & 0xFFFF) as u64
    } else if kind == MIPS_KIND_BRANCH_TARGET {
        (word & 0xFFFF) as u64
    } else if kind == MIPS_KIND_IMMEDIATE_BASE {  // offset(base) pair
        ((((word >> 21) & 31) as u64) << 16) | ((word & 0xFFFF) as u64)
    } else if kind == 22 {  // rd/rs pair
        ((((word >> 11) & 31) as u64) << 16) | (((word >> 21) & 31) as u64)
    } else {
        word as u64
    }
}

/// An operand token: the kind code paired with the operand's field value.
pub open spec fn spec_arg_token(kind: u32, v: u64) -> u64 {
    ((kind as u64) << 32) | v
}

/// The equivalence-stream contribution of one MIPS operand.
///
/// Immediates and jump labels are suppressed when a relocation applies to the
/// instruction; an `offset(base)` compound keeps only its base register then;
/// every other operand, branch targets included, is always emitted.
pub open spec fn spec_mips_one_arg(kind: u32, word: u32, relocated: bool) -> Seq<u64> {
    if relocated && (kind == MIPS_KIND_LABEL || kind == MIPS_KIND_IMMEDIATE) {
        Seq::empty()
    } else if relocated && kind == MIPS_KIND_IMMEDIATE_BASE {
        seq![spec_arg_token(kind, ((word >> 21) & 31) as u64)]
    } else {
        seq![spec_arg_token(kind, spec_mips_field(kind, word))]
    }
}

/// The equivalence-stream contribution of a MIPS operand list.
pub open spec fn spec_mips_args(kinds: Seq<u32>, word: u32, relocated: bool) -> Seq<u64>
    decreases kinds.len(),
{
    if kinds.len() == 0 {
        Seq::empty()
    } else {
        spec_mips_args(kinds.drop_last(), word, relocated) + spec_mips_one_arg(
            kinds.last(),
            word,
            relocated,
        )
    }
}

proof fn lemma_mips_args_push(kinds: Seq<u32>, k: u32, word: u32, relocated: bool)
    ensures
        spec_mips_args(kinds.push(k), word, relocated) == spec_mips_args(kinds, word, relocated)
            + spec_mips_one_arg(k, word, relocated),
{
    assert(kinds.push(k).drop_last() =~= kinds);
}

/// The raw bit field of one MIPS operand (executable form).
fn mips_field(kind: u32, word: u32) -> (r: u64)
    ensures
        r == spec_mips_field(kind, word),
{
    if kind == 1 {
        ((word >> 21u32) & 31) as u64
    } else if kind == 2 {
        ((word >> 16u32) & 31) as u64
    } else if kind == 3 {
        ((word >> 11u32) & 31) as u64
    } else if kind == 4 {
        ((word >> 6u32) & 31) as u64
    } else if kind == 5 {
        0u64
    } else if kind == 6 {
        ((word >> 11u32) & 31) as u64
    } else if kind == 7 {
        ((word >> 11u32) & 31) as u64
    } else if kind == 8 {
        ((word >> 16u32) & 31) as u64
    } else if kind == 9 {
        ((word >> 6u32) & 31) as u64
    } else if kind == 10 {
        ((word >> 11u32) & 31) as u64
    } else if kind == 11 {
        ((word >> 16u32) & 31) as u64
    } else if kind == 12 {
        ((word >> 11u32) & 31) as u64
    } else if kind == 13 {
        ((word >> 16u32) & 31) as u64
    } else if kind == 14 {
        ((word >> 16u32) & 31) as u64
    } else if kind == 15 {
        ((word >> 6u32) & 0xFFFFF) as u64
    } else if kind == 16 {
        ((word >> 6u32) & 0x3FF) as u64
    } else if kind == 17 {
        (word & 0x1FFFFFF) as u64
    } else if kind == MIPS_KIND_LABEL {
        (word & 0x3FFFFFF) as u64
    } else if kind == MIPS_KIND_IMMEDIATE {
        (word & 0xFFFF) as u64
    } else if kind == MIPS_KIND_BRANCH_TARGET {
        (word & 0xFFFF) as u64
    } else if kind == MIPS_KIND_IMMEDIATE_BASE {
        ((((word >> 21u32) & 31) as u64) << 16u64) | ((word & 0xFFFF) as u64)
    } else if kind == 22 {
        ((((word >> 11u32) & 31) as u64) << 16u64) | (((word >> 21u32) & 31) as u64)
    } else {
        word as u64
    }
}

// ---------------------------------------------------------------------------
// Rendered operand classification (PPC and Thumb)
// ---------------------------------------------------------------------------

/// Whether a rendered PPC argument is immediate-like: a signed or unsigned
/// immediate, a memory offset, a branch destination, or an opaque literal.
pub open spec fn spec_ppc_is_imm(a: Seq<u8>) -> bool {
    ||| spec_has_prefix(a, "Simm(".spec_bytes())
    ||| spec_has_prefix(a, "Uimm(".spec_bytes())
    ||| spec_has_prefix(a, "Offset(".spec_bytes())
    ||| spec_has_prefix(a, "BranchDest(".spec_bytes())
    ||| spec_has_prefix(a, "OpaqueU(".spec_bytes())
}

/// Whether a rendered Thumb argument is immediate-like: an immediate, a
/// shift amount, a memory offset, or a branch destination.
pub open spec fn spec_thumb_is_imm(a: Seq<u8>) -> bool {
    ||| spec_has_prefix(a, "ShiftImm(".spec_bytes())
    ||| spec_has_prefix(a, "ShiftReg(".spec_bytes())
    ||| spec_has_prefix(a, "UImm(".spec_bytes())
    ||| spec_has_prefix(a, "SatImm(".spec_bytes())
    ||| spec_has_prefix(a, "SImm(".spec_bytes())
    ||| spec_has_prefix(a, "OffsetImm(".spec_bytes())
    ||| spec_has_prefix(a, "OffsetReg(".spec_bytes())
    ||| spec_has_prefix(a, "BranchDest(".spec_bytes())
}

/// The equivalence-stream contribution of one rendered argument: nothing for
/// the empty placeholder, nothing for a suppressed immediate, else the hash
/// of the rendered bytes.
pub open spec fn spec_rendered_one_arg(a: Seq<u8>, imm: bool, relocated: bool) -> Seq<u64> {
    if a == "None".spec_bytes() {
        Seq::empty()
    } else if relocated && imm {
        Seq::empty()
    } else {
        seq![spec_hash_bytes(a)]
    }
}

/// The equivalence-stream contribution of a rendered argument list.
pub open spec fn spec_rendered_args(
    args: Seq<Seq<u8>>,
    is_imm: spec_fn(Seq<u8>) -> bool,
    relocated: bool,
) -> Seq<u64>
    decreases args.len(),
{
    if args.len() == 0 {
        Seq::empty()
    } else {
        spec_rendered_args(args.drop_last(), is_imm, relocated) + spec_rendered_one_arg(
            args.last(),
            is_imm(args.last()),
            relocated,
        )
    }
}

proof fn lemma_rendered_args_push(
    args: Seq<Seq<u8>>,
    a: Seq<u8>,
    is_imm: spec_fn(Seq<u8>) -> bool,
    relocated: bool,
)
    ensures
        spec_rendered_args(args.push(a), is_imm, relocated) == spec_rendered_args(
            args,
            is_imm,
            relocated,
        ) + spec_rendered_one_arg(a, is_imm(a), relocated),
{
    assert(args.push(a).drop_last() =~= args);
}

fn ppc_is_imm(a: &[u8]) -> (r: bool)
    ensures
        r == spec_ppc_is_imm(a@),
{
    has_prefix(a, "Simm(".as_bytes()) || has_prefix(a, "Uimm(".as_bytes()) || has_prefix(
        a,
        "Offset(".as_bytes(),
    ) || has_prefix(a, "BranchDest(".as_bytes()) || has_prefix(a, "OpaqueU(".as_bytes())
}

fn thumb_is_imm(a: &[u8]) -> (r: bool)
    ensures
        r == spec_thumb_is_imm(a@),
{
    has_prefix(a, "ShiftImm(".as_bytes()) || has_prefix(a, "ShiftReg(".as_bytes()) || has_prefix(
        a,
        "UImm(".as_bytes(),
    ) || has_prefix(a, "SatImm(".as_bytes()) || has_prefix(a, "SImm(".as_bytes()) || has_prefix(
        a,
        "OffsetImm(".as_bytes(),
    ) || has_prefix(a, "OffsetReg(".as_bytes()) || has_prefix(a, "BranchDest(".as_bytes())
}

// ---------------------------------------------------------------------------
// Per-instruction equivalence-stream arguments
// ---------------------------------------------------------------------------

/// The equivalence-stream operand tokens of instruction chunk `i`, given
/// whether a relocation applies to that instruction.
pub open spec fn spec_insn_args(bytes: Seq<u8>, i: int, p: Platform, relocated: bool) -> Seq<
    u64,
> {
    match spec_arch(p) {
        Arch::Mips => spec_mips_args(
            mips_insn_kinds(spec_insn_word(bytes, i, p), spec_platform_id(p)),
            spec_insn_word(bytes, i, p),
            relocated,
        ),
        Arch::Ppc => spec_rendered_args(
            ppc_args_of(spec_insn_word(bytes, i, p)),
            |a: Seq<u8>| spec_ppc_is_imm(a),
            relocated,
        ),
        Arch::Thumb => spec_rendered_args(
            thumb_args_of(spec_insn_word(bytes, i, p) as u16),
            |a: Seq<u8>| spec_thumb_is_imm(a),
            relocated,
        ),
    }
}

/// Hash one rendered argument.
fn rendered_token(a: &Vec<u8>) -> (r: u64)
    ensures
        r == spec_hash_bytes(a@),
{
    let r = hash_byte_range(a.as_slice(), 0, a.len());
    proof {
        assert(a@.subrange(0, a@.len() as int) =~= a@);
    }
    r
}

/// Decode instruction chunk `i` and emit its equivalence-stream operand
/// tokens.
pub fn insn_args(bytes: &[u8], i: usize, p: Platform, relocated: bool) -> (r: Vec<u64>)
    requires
        (i + 1) * spec_insn_length(spec_arch(p)) <= bytes@.len(),
    ensures
        r@ == spec_insn_args(bytes@, i as int, p, relocated),
{
    // bind the slice length so its bound is in scope for the prover
    let _len: usize = bytes.len();
    let e = p.endianness();
    let mut r: Vec<u64> = Vec::new();
    match p.arch() {
        Arch::Mips => {
            proof {
                assert((i + 1) * spec_insn_length(spec_arch(p)) == 4 * i + 4)
                    by (nonlinear_arith)
                    requires spec_insn_length(spec_arch(p)) == 4;
            }
            let word = read_u32(bytes, 4 * i, e);
            let (_, kinds) = mips_decode(word, p);
            let ghost all = mips_insn_kinds(spec_insn_word(bytes@, i as int, p), spec_platform_id(p));
            let mut j: usize = 0;
            while j < kinds.len()
                invariant
                    j <= kinds@.len(),
                    kinds@ == all,
                    word == spec_insn_word(bytes@, i as int, p),
                    r@ == spec_mips_args(all.subrange(0, j as int), word, relocated),
                decreases kinds@.len() - j,
            {
                let kind = kinds[j];
                proof {
                    assert(all.subrange(0, j + 1) =~= all.subrange(0, j as int).push(all[j as int]));
                    lemma_mips_args_push(all.subrange(0, j as int), all[j as int], word, relocated);
                }
                if relocated && (kind == MIPS_KIND_LABEL || kind == MIPS_KIND_IMMEDIATE) {
                    // suppressed: the relocation identity already pins the value
                } else if relocated && kind == MIPS_KIND_IMMEDIATE_BASE {
                    r.push(((kind as u64) << 32u64) | (((word >> 21u32) & 31) as u64));
                } else {
                    let v = mips_field(kind, word);
                    r.push(((kind as u64) << 32u64) | v);
                }
                j = j + 1;
            }
            proof {
                assert(all.subrange(0, all.len() as int) =~= all);
            }
        },
        Arch::Ppc => {
            proof {
                assert((i + 1) * spec_insn_length(spec_arch(p)) == 4 * i + 4)
                    by (nonlinear_arith)
                    requires spec_insn_length(spec_arch(p)) == 4;
            }
            let word = read_u32(bytes, 4 * i, e);
            let (_, args) = ppc_decode(word);
            let ghost all = ppc_args_of(spec_insn_word(bytes@, i as int, p));
            let ghost is_imm = |a: Seq<u8>| spec_ppc_is_imm(a);
            let mut j: usize = 0;
            while j < args.len()
                invariant
                    j <= args@.len(),
                    args.deep_view() == all,
                    args@.len() == all.len(),
                    r@ == spec_rendered_args(all.subrange(0, j as int), is_imm, relocated),
                    is_imm == |a: Seq<u8>| spec_ppc_is_imm(a),
                decreases args@.len() - j,
            {
                let a = &args[j];
                proof {
                    assert(args.deep_view()[j as int] == args@[j as int]@);
                    assert(all.subrange(0, j + 1) =~= all.subrange(0, j as int).push(all[j as int]));
                    lemma_rendered_args_push(all.subrange(0, j as int), all[j as int], is_imm, relocated);
                }
                if bytes_eq(a.as_slice(), "None".as_bytes()) {
                    // empty argument slot
                } else if relocated && ppc_is_imm(a.as_slice()) {
                    // suppressed: the relocation identity already pins the value
                } else {
                    r.push(rendered_token(a));
                }
                j = j + 1;
            }
            proof {
                assert(all.subrange(0, all.len() as int) =~= all);
            }
        },
        Arch::Thumb => {
            proof {
                assert((i + 1) * spec_insn_length(spec_arch(p)) == 2 * i + 2)
                    by (nonlinear_arith)
                    requires spec_insn_length(spec_arch(p)) == 2;
            }
            let code = read_u16(bytes, 2 * i, e);
            let (_, args) = thumb_decode(code);
            let ghost all = thumb_args_of(spec_insn_word(bytes@, i as int, p) as u16);
            let ghost is_imm = |a: Seq<u8>| spec_thumb_is_imm(a);
            let mut j: usize = 0;
            while j < args.len()
                invariant
                    j <= args@.len(),
                    args.deep_view() == all,
                    args@.len() == all.len(),
                    r@ == spec_rendered_args(all.subrange(0, j as int), is_imm, relocated),
                    is_imm == |a: Seq<u8>| spec_thumb_is_imm(a),
                decreases args@.len() - j,
            {
                let a = &args[j];
                proof {
                    assert(args.deep_view()[j as int] == args@[j as int]@);
                    assert(all.subrange(0, j + 1) =~= all.subrange(0, j as int).push(all[j as int]));
                    lemma_rendered_args_push(all.subrange(0, j as int), all[j as int], is_imm, relocated);
                }
                if bytes_eq(a.as_slice(), "None".as_bytes()) {
                    // empty argument slot
                } else if relocated && thumb_is_imm(a.as_slice()) {
                    // suppressed: the relocation identity already pins the value
                } else {
                    r.push(rendered_token(a));
                }
                j = j + 1;
            }
            proof {
                assert(all.subrange(0, all.len() as int) =~= all);
            }
        },
    }
    r
}

} // verus!
