//! Symbol fingerprinting.
//!
//! A symbol's raw bytes are trimmed of trailing zero instructions and then
//! fingerprinted at three resolutions:
//!
//! * `exact_hash` — hash of the trimmed bytes;
//! * `opcode_hash` — hash of the opcode-id vector;
//! * `equiv_hash` — hash of the equivalence stream: per instruction, the
//!   dense identifier of the relocation applying to it (if any), the opcode,
//!   and the operand tokens, with immediate-like operands suppressed on
//!   relocated instructions.
//!
//! A relocation's dense identifier depends only on the order of first
//! appearance of its identity within the symbol, so two structurally equal
//! functions referring to unrelated external symbols still hash equal.

use crate::arch::{insn_args, insn_opcode, spec_insn_args, spec_insn_opcode, spec_num_insns,
    spec_opcodes};
use crate::hashing::{hash_tokens, spec_hash_bytes, spec_hash_opcodes, spec_hash_tokens};
use crate::platform::{Platform, spec_arch, spec_insn_length};
use crate::reloc::{CanonReloc, find_reloc, spec_find_reloc};
use vstd::prelude::*;

verus! {

// ---------------------------------------------------------------------------
// Trailing-zero trim
// ---------------------------------------------------------------------------

/// Whether the `l` bytes of `s` starting at `from` are all zero.
pub open spec fn spec_zero_chunk(s: Seq<u8>, from: int, l: int) -> bool {
    forall|j: int| from <= j < from + l ==> s[j] == 0
}

/// `s` with trailing all-zero chunks of `l` bytes removed.
pub open spec fn spec_trim(s: Seq<u8>, l: int) -> Seq<u8>
    recommends
        l >= 1,
    decreases s.len(),
{
    if l >= 1 && s.len() >= l && spec_zero_chunk(s, s.len() - l, l) {
        spec_trim(s.subrange(0, s.len() - l), l)
    } else {
        s
    }
}

/// A trimmed byte string is unchanged by trimming again.
pub proof fn lemma_trim_idempotent(s: Seq<u8>, l: int)
    ensures
        spec_trim(spec_trim(s, l), l) == spec_trim(s, l),
    decreases s.len(),
{
    if l >= 1 && s.len() >= l && spec_zero_chunk(s, s.len() - l, l) {
        lemma_trim_idempotent(s.subrange(0, s.len() - l), l);
    }
}

/// Whether the `l` bytes at `from` are all zero.
fn is_zero_chunk(s: &Vec<u8>, from: usize, l: usize) -> (r: bool)
    requires
        from + l <= s@.len(),
    ensures
        r == spec_zero_chunk(s@, from as int, l as int),
{
    // bind the slice length so its bound is in scope for the prover
    let _len: usize = s.len();
    let mut j: usize = 0;
    while j < l
        invariant
            j <= l,
            from + l <= s@.len() <= usize::MAX,
            forall|k: int| from <= k < from + j ==> s@[k] == 0,
        decreases l - j,
    {
        if s[from + j] != 0 {
            return false;
        }
        j = j + 1;
    }
    true
}

/// Remove trailing all-zero chunks of `l` bytes (tool-injected padding that
/// would otherwise perturb the hashes).
pub fn trim_trailing_zeros(bytes: &mut Vec<u8>, l: usize)
    requires
        l >= 1,
    ensures
        final(bytes)@ == spec_trim(old(bytes)@, l as int),
{
    loop
        invariant
            l >= 1,
            spec_trim(bytes@, l as int) == spec_trim(old(bytes)@, l as int),
        ensures
            bytes@ == spec_trim(old(bytes)@, l as int),
        decreases bytes@.len(),
    {
        let n = bytes.len();
        if n >= l && is_zero_chunk(bytes, n - l, l) {
            bytes.truncate(n - l);
        } else {
            proof {
                assert(spec_trim(bytes@, l as int) == bytes@);
            }
            return ;
        }
    }
}

// ---------------------------------------------------------------------------
// The equivalence stream
// ---------------------------------------------------------------------------

/// The identity of a canonical relocation under equivalence hashing.
#[derive(Debug, Clone, Copy, PartialEq, Eq, Structural)]
pub struct RelocIdentity {
    /// Identifier of the target symbol.
    pub target: u64,
    /// Full signed addend.
    pub addend: i64,
    /// ELF relocation type code.
    pub kind: u32,
}

/// The identity triple of a canonical relocation.
pub open spec fn spec_identity_of(r: CanonReloc) -> RelocIdentity {
    RelocIdentity { target: r.target, addend: r.addend, kind: r.kind }
}

/// First index of `x` in `seen`, or `seen.len()` when absent: the dense
/// identifier that the identity `x` receives.
pub open spec fn spec_dense_id(seen: Seq<RelocIdentity>, x: RelocIdentity) -> int
    decreases seen.len(),
{
    if seen.len() == 0 {
        0
    } else if seen[0] == x {
        0
    } else {
        1 + spec_dense_id(seen.drop_first(), x)
    }
}

/// The dense identifier is at most `seen.len()`, and below it exactly when
/// the identity has been seen.
pub proof fn lemma_dense_id_range(seen: Seq<RelocIdentity>, x: RelocIdentity)
    ensures
        0 <= spec_dense_id(seen, x) <= seen.len(),
        spec_dense_id(seen, x) < seen.len() ==> seen[spec_dense_id(seen, x)] == x,
    decreases seen.len(),
{
    if seen.len() > 0 && seen[0] != x {
        lemma_dense_id_range(seen.drop_first(), x);
    }
}

/// First index of `x` in `seen`, or `seen.len()` when absent.
fn dense_id_lookup(seen: &Vec<RelocIdentity>, x: RelocIdentity) -> (id: usize)
    ensures
        id == spec_dense_id(seen@, x),
{
    proof {
        assert(seen@.skip(0) =~= seen@);
    }
    let mut id: usize = 0;
    while id < seen.len()
        invariant
            id <= seen@.len(),
            spec_dense_id(seen@, x) == id + spec_dense_id(seen@.skip(id as int), x),
        decreases seen@.len() - id,
    {
        if seen[id] == x {
            proof {
                assert(seen@.skip(id as int)[0] == seen@[id as int]);
            }
            return id;
        }
        proof {
            assert(seen@.skip(id as int).drop_first() =~= seen@.skip(id + 1));
        }
        id = id + 1;
    }
    proof {
        assert(seen@.skip(seen@.len() as int).len() == 0);
    }
    id
}

/// One instruction of the equivalence stream.
pub struct EquivInsn {
    /// Dense identifier of the relocation applying to this instruction.
    pub reloc_id: Option<int>,
    /// The instruction's opcode id.
    pub opcode: u16,
    /// The instruction's operand tokens, after suppression.
    pub args: Seq<u64>,
}

/// State of the stream builder: the instructions emitted so far and the
/// relocation identities already seen, in order of first appearance.
pub struct EquivState {
    pub insns: Seq<EquivInsn>,
    pub seen: Seq<RelocIdentity>,
}

/// The canonical relocation applying to instruction chunk `i`, looked up at
/// the symbol-relative byte offset of the chunk.
pub open spec fn spec_insn_reloc(relocs: Seq<CanonReloc>, i: int, p: Platform) -> Option<
    CanonReloc,
> {
    spec_find_reloc(relocs, (i * spec_insn_length(spec_arch(p))) as u64)
}

/// Append instruction chunk `i` to the equivalence stream.
pub open spec fn spec_equiv_step(
    st: EquivState,
    bytes: Seq<u8>,
    relocs: Seq<CanonReloc>,
    p: Platform,
    i: int,
) -> EquivState {
    match spec_insn_reloc(relocs, i, p) {
        Some(rc) => {
            let x = spec_identity_of(rc);
            let id = spec_dense_id(st.seen, x);
            let seen = if id < st.seen.len() {
                st.seen
            } else {
                st.seen.push(x)
            };
            let insn = EquivInsn {
                reloc_id: Some(id),
                opcode: spec_insn_opcode(bytes, i, p),
                args: spec_insn_args(bytes, i, p, true),
            };
            EquivState { insns: st.insns.push(insn), seen }
        },
        None => {
            let insn = EquivInsn {
                reloc_id: None,
                opcode: spec_insn_opcode(bytes, i, p),
                args: spec_insn_args(bytes, i, p, false),
            };
            EquivState { insns: st.insns.push(insn), seen: st.seen }
        },
    }
}

/// Marker opcode standing for an inline-data chunk in the opcode vector.
pub const OPCODE_DATA: u16 = 0xFFFF;

/// Whether instruction chunk `i` is marked as inline data.
pub open spec fn spec_is_data(flags: Seq<bool>, i: int) -> bool {
    0 <= i < flags.len() && flags[i]
}

/// The opcode vector with inline data marked: a data chunk carries the
/// data marker instead of a decoded opcode.
pub open spec fn spec_opcodes_with_data(bytes: Seq<u8>, p: Platform, flags: Seq<bool>) -> Seq<
    u16,
> {
    Seq::new(
        spec_num_insns(bytes, p) as nat,
        |i: int|
            if spec_is_data(flags, i) {
                OPCODE_DATA
            } else {
                spec_insn_opcode(bytes, i, p)
            },
    )
}

/// The equivalence stream of the first `n` instruction chunks.
pub open spec fn spec_equiv_fold(
    bytes: Seq<u8>,
    relocs: Seq<CanonReloc>,
    flags: Seq<bool>,
    p: Platform,
    n: int,
) -> EquivState
    decreases n,
{
    if n <= 0 {
        EquivState { insns: Seq::empty(), seen: Seq::empty() }
    } else {
        let pre = spec_equiv_fold(bytes, relocs, flags, p, n - 1);
        if spec_is_data(flags, n - 1) {
            pre
        } else {
            spec_equiv_step(pre, bytes, relocs, p, n - 1)
        }
    }
}

/// The equivalence stream of a symbol's trimmed bytes: its instructions in
/// order, inline-data chunks contributing nothing.
pub open spec fn spec_equiv_insns(
    bytes: Seq<u8>,
    relocs: Seq<CanonReloc>,
    flags: Seq<bool>,
    p: Platform,
) -> Seq<EquivInsn> {
    spec_equiv_fold(bytes, relocs, flags, p, spec_num_insns(bytes, p)).insns
}

/// The token stream of one equivalence-stream instruction: the dense
/// relocation identifier if present, then the opcode, then the operands.
pub open spec fn spec_insn_tokens(x: EquivInsn) -> Seq<u64> {
    (match x.reloc_id {
        Some(id) => seq![id as u64],
        None => Seq::empty(),
    }) + seq![x.opcode as u64] + x.args
}

/// The flat token stream of an equivalence stream.
pub open spec fn spec_equiv_tokens(insns: Seq<EquivInsn>) -> Seq<u64>
    decreases insns.len(),
{
    if insns.len() == 0 {
        Seq::empty()
    } else {
        spec_equiv_tokens(insns.drop_last()) + spec_insn_tokens(insns.last())
    }
}

proof fn lemma_equiv_tokens_push(insns: Seq<EquivInsn>, x: EquivInsn)
    ensures
        spec_equiv_tokens(insns.push(x)) == spec_equiv_tokens(insns) + spec_insn_tokens(x),
{
    assert(insns.push(x).drop_last() =~= insns);
}

// ---------------------------------------------------------------------------
// The three fingerprints
// ---------------------------------------------------------------------------

/// The exact fingerprint: hash of the trimmed bytes.
pub open spec fn spec_exact_hash(bytes: Seq<u8>) -> u64 {
    spec_hash_bytes(bytes)
}

/// The opcode fingerprint: hash of the opcode-id vector, with inline data
/// chunks carried as markers.
pub open spec fn spec_opcode_hash(bytes: Seq<u8>, p: Platform, flags: Seq<bool>) -> u64 {
    spec_hash_opcodes(spec_opcodes_with_data(bytes, p, flags))
}

/// The equivalence fingerprint: hash of the flattened equivalence stream.
pub open spec fn spec_equiv_hash(
    bytes: Seq<u8>,
    relocs: Seq<CanonReloc>,
    flags: Seq<bool>,
    p: Platform,
) -> u64 {
    spec_hash_tokens(spec_equiv_tokens(spec_equiv_insns(bytes, relocs, flags, p)))
}

/// The opcode vector with inline-data chunks carried as markers.
pub fn opcodes_with_data(bytes: &[u8], p: Platform, flags: &Vec<bool>) -> (r: Vec<u16>)
    ensures
        r@ == spec_opcodes_with_data(bytes@, p, flags@),
{
    let insn_length = p.arch().insn_length();
    let n = bytes.len() / insn_length;
    let mut r: Vec<u16> = Vec::new();
    let mut i: usize = 0;
    while i < n
        invariant
            n == spec_num_insns(bytes@, p),
            insn_length == crate::platform::spec_insn_length(spec_arch(p)),
            i <= n,
            r@ =~= spec_opcodes_with_data(bytes@, p, flags@).subrange(0, i as int),
        decreases n - i,
    {
        let is_data = i < flags.len() && flags[i];
        let op = if is_data {
            OPCODE_DATA
        } else {
            proof {
                assert((i + 1) * insn_length <= n * insn_length) by (nonlinear_arith)
                    requires
                        i + 1 <= n,
                        insn_length >= 1,
                ;
                assert(n * insn_length <= bytes@.len()) by (nonlinear_arith)
                    requires
                        n == bytes@.len() as int / insn_length as int,
                        insn_length >= 1,
                ;
            }
            crate::arch::insn_opcode(bytes, i, p)
        };
        r.push(op);
        i = i + 1;
        proof {
            assert(r@ =~= spec_opcodes_with_data(bytes@, p, flags@).subrange(0, i as int));
        }
    }
    proof {
        assert(r@ =~= spec_opcodes_with_data(bytes@, p, flags@));
    }
    r
}

/// Compute the equivalence fingerprint of trimmed symbol bytes, with
/// relocations keyed by symbol-relative byte offset and inline-data chunks
/// left out of the stream.
pub fn equiv_hash_of(
    bytes: &Vec<u8>,
    relocs: &Vec<CanonReloc>,
    flags: &Vec<bool>,
    p: Platform,
) -> (r: u64)
    ensures
        r == spec_equiv_hash(bytes@, relocs@, flags@, p),
{
    let insn_length = p.arch().insn_length();
    let n = bytes.len() / insn_length;
    let mut tokens: Vec<u64> = Vec::new();
    let mut seen: Vec<RelocIdentity> = Vec::new();
    let mut i: usize = 0;
    while i < n
        invariant
            n == spec_num_insns(bytes@, p),
            insn_length == spec_insn_length(spec_arch(p)),
            bytes@.len() <= usize::MAX,
            i <= n,
            seen@ == spec_equiv_fold(bytes@, relocs@, flags@, p, i as int).seen,
            tokens@ == spec_equiv_tokens(
                spec_equiv_fold(bytes@, relocs@, flags@, p, i as int).insns,
            ),
        decreases n - i,
    {
        proof {
            assert((i + 1) * insn_length <= n * insn_length) by (nonlinear_arith)
                requires
                    i + 1 <= n,
                    insn_length >= 1,
            ;
            assert(n * insn_length <= bytes@.len()) by (nonlinear_arith)
                requires
                    n == bytes@.len() as int / insn_length as int,
                    insn_length >= 1,
            ;
            assert(i * insn_length == (i as int) * spec_insn_length(spec_arch(p)));
        }
        let ghost pre = spec_equiv_fold(bytes@, relocs@, flags@, p, i as int);
        let is_data = i < flags.len() && flags[i];
        if !is_data {
            let off = (i * insn_length) as u64;
            let rc = find_reloc(relocs, off);
            let relocated = rc.is_some();
            match rc {
                Some(rc) => {
                    let x = RelocIdentity { target: rc.target, addend: rc.addend, kind: rc.kind };
                    let id = dense_id_lookup(&seen, x);
                    proof {
                        lemma_dense_id_range(seen@, x);
                    }
                    if id == seen.len() {
                        seen.push(x);
                    }
                    tokens.push(id as u64);
                },
                None => {
                },
            }
            let opcode = insn_opcode(bytes.as_slice(), i, p);
            tokens.push(opcode as u64);
            let mut args = insn_args(bytes.as_slice(), i, p, relocated);
            tokens.append(&mut args);
            proof {
                lemma_equiv_tokens_push(
                    pre.insns,
                    spec_equiv_fold(bytes@, relocs@, flags@, p, i + 1).insns.last(),
                );
                assert(spec_equiv_fold(bytes@, relocs@, flags@, p, i + 1).insns =~= pre.insns.push(
                    spec_equiv_fold(bytes@, relocs@, flags@, p, i + 1).insns.last(),
                ));
                assert(tokens@ =~= spec_equiv_tokens(
                    spec_equiv_fold(bytes@, relocs@, flags@, p, i + 1).insns,
                ));
            }
        }
        i = i + 1;
    }
    hash_tokens(&tokens)
}

} // verus!
