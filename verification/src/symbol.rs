//! The `Symbol` record and the laws of its three fingerprints.

use crate::fingerprint::{equiv_hash_of, opcodes_with_data, spec_equiv_hash, spec_equiv_insns,
    spec_exact_hash, spec_is_data, spec_opcode_hash, spec_opcodes_with_data, spec_trim,
    trim_trailing_zeros};
use crate::hashing::{get_byte_hashes, get_hashes, hash_byte_range, hash_opcode_range,
    spec_byte_window_hashes, spec_window_hashes};
use crate::platform::{Platform, spec_arch, spec_insn_length};
use crate::reloc::CanonReloc;
use vstd::prelude::*;

verus! {

/// The ingredients of a symbol, before fingerprinting.
pub struct SymbolDef {
    /// The symbol's name.
    pub name: String,
    /// The symbol's raw bytes, not yet trimmed.
    pub bytes: Vec<u8>,
    /// The symbol's memory address.
    pub vram: usize,
    /// Whether the symbol is already decompiled.
    pub is_decompiled: bool,
    /// The platform the symbol was built for.
    pub platform: Platform,
    /// The symbol's index in its object file.
    pub symbol_idx: usize,
    /// Per-instruction-chunk inline-data marks: a chunk marked `true` is
    /// literal data, not an instruction. An empty vector marks nothing.
    pub data: Vec<bool>,
}

/// A fingerprinted symbol.
pub struct Symbol {
    /// The name of the symbol.
    pub name: String,
    /// The raw bytes of the symbol, trimmed of trailing zero instructions.
    pub bytes: Vec<u8>,
    /// The symbol's opcode-id vector, one entry per instruction.
    pub opcodes: Vec<u16>,
    /// The symbol's memory address.
    pub vram: usize,
    /// Whether the symbol is already decompiled.
    pub is_decompiled: bool,
    /// Hash of the opcode-id vector.
    pub opcode_hash: u64,
    /// Hash of the equivalence stream.
    pub equiv_hash: u64,
    /// Hash of the trimmed bytes.
    pub exact_hash: u64,
    /// The symbol's index in its object file.
    pub symbol_idx: usize,
    /// The platform the symbol was built for.
    pub platform: Platform,
    /// The canonical relocations the symbol was fingerprinted with, keyed by
    /// symbol-relative byte offset.
    pub relocs: Ghost<Seq<CanonReloc>>,
    /// The inline-data marks the symbol was fingerprinted with, one per
    /// instruction chunk.
    pub data: Ghost<Seq<bool>>,
}

impl Symbol {
    /// Well-formedness: the bytes are trimmed, and the opcode vector and the
    /// three hashes are the fingerprints of the bytes, the relocations and
    /// the platform.
    pub open spec fn wf(&self) -> bool {
        &&& self.bytes@ == spec_trim(
            self.bytes@,
            spec_insn_length(spec_arch(self.platform)) as int,
        )
        &&& self.opcodes@ == spec_opcodes_with_data(self.bytes@, self.platform, self.data@)
        &&& self.exact_hash == spec_exact_hash(self.bytes@)
        &&& self.opcode_hash == spec_opcode_hash(self.bytes@, self.platform, self.data@)
        &&& self.equiv_hash == spec_equiv_hash(
            self.bytes@,
            self.relocs@,
            self.data@,
            self.platform,
        )
    }

    /// Fingerprint a symbol: trim trailing zero instructions, then compute
    /// the exact, equivalence and opcode hashes together with the opcode
    /// vector. The relocations are the canonical ones of the symbol's
    /// instruction range, keyed by symbol-relative byte offset.
    pub fn new(def: SymbolDef, relocations: &Vec<CanonReloc>) -> (s: Symbol)
        ensures
            s.wf(),
            s.name@ == def.name@,
            s.bytes@ == spec_trim(
                def.bytes@,
                spec_insn_length(spec_arch(def.platform)) as int,
            ),
            s.vram == def.vram,
            s.is_decompiled == def.is_decompiled,
            s.symbol_idx == def.symbol_idx,
            s.platform == def.platform,
            s.relocs@ == relocations@,
            s.data@ == def.data@,
    {
        let insn_length = def.platform.arch().insn_length();
        let mut bytes = def.bytes;
        trim_trailing_zeros(&mut bytes, insn_length);
        let nb = bytes.len();
        let exact_hash = hash_byte_range(bytes.as_slice(), 0, nb);
        proof {
            assert(bytes@.subrange(0, nb as int) =~= bytes@);
        }
        let opcodes = opcodes_with_data(bytes.as_slice(), def.platform, &def.data);
        let no = opcodes.len();
        let opcode_hash = hash_opcode_range(opcodes.as_slice(), 0, no);
        proof {
            assert(opcodes@.subrange(0, no as int) =~= opcodes@);
        }
        let equiv_hash = equiv_hash_of(&bytes, relocations, &def.data, def.platform);
        proof {
            crate::fingerprint::lemma_trim_idempotent(def.bytes@, insn_length as int);
        }
        Symbol {
            name: def.name,
            bytes,
            opcodes,
            vram: def.vram,
            is_decompiled: def.is_decompiled,
            opcode_hash,
            equiv_hash,
            exact_hash,
            symbol_idx: def.symbol_idx,
            platform: def.platform,
            relocs: Ghost(relocations@),
            data: Ghost(def.data@),
        }
    }

    /// Rolling window hashes over the symbol's trimmed bytes.
    pub fn get_exact_hashes(&self, window_size: usize) -> (r: Vec<u64>)
        requires
            1 <= window_size,
            self.bytes@.len() + window_size < usize::MAX,
        ensures
            r@ == spec_byte_window_hashes(self.bytes@, window_size as nat),
    {
        get_byte_hashes(&self.bytes, window_size)
    }

    /// Rolling window hashes over the symbol's opcode vector.
    pub fn get_opcode_hashes(&self, window_size: usize) -> (r: Vec<u64>)
        requires
            1 <= window_size,
            self.opcodes@.len() + window_size < usize::MAX,
        ensures
            r@ == spec_window_hashes(self.opcodes@, window_size as nat),
    {
        get_hashes(&self.opcodes, window_size)
    }

    /// Rolling window hashes over the symbol's opcode vector, under the name
    /// used by older call sites.
    pub fn get_fuzzy_hashes(&self, window_size: usize) -> (r: Vec<u64>)
        requires
            1 <= window_size,
            self.opcodes@.len() + window_size < usize::MAX,
        ensures
            r@ == spec_window_hashes(self.opcodes@, window_size as nat),
    {
        get_hashes(&self.opcodes, window_size)
    }
}

/// A named collection of symbols out of one binary.
pub struct Binary {
    /// The binary's display name.
    pub name: String,
    /// The symbols ingested out of it.
    pub symbols: Vec<Symbol>,
}

// ---------------------------------------------------------------------------
// Laws of the fingerprints
// ---------------------------------------------------------------------------

/// Determinism: the three fingerprints are pure functions of the trimmed
/// bytes, the canonical relocations, the inline-data marks and the
/// platform, so two symbols built from the same ingredients — by this
/// ingestion or any other — carry the same hashes and the same opcode
/// vector.
pub proof fn lemma_fingerprints_deterministic(a: Symbol, b: Symbol)
    requires
        a.wf(),
        b.wf(),
        a.bytes@ == b.bytes@,
        a.relocs@ == b.relocs@,
        a.data@ == b.data@,
        a.platform == b.platform,
    ensures
        a.exact_hash == b.exact_hash,
        a.equiv_hash == b.equiv_hash,
        a.opcode_hash == b.opcode_hash,
        a.opcodes@ == b.opcodes@,
{
}

/// Number of chunks among the first `n` that are not inline data.
pub open spec fn spec_nondata_count(flags: Seq<bool>, n: int) -> int
    decreases n,
{
    if n <= 0 {
        0
    } else {
        spec_nondata_count(flags, n - 1) + (if spec_is_data(flags, n - 1) {
            0int
        } else {
            1int
        })
    }
}

/// A non-data chunk strictly raises the non-data count of every longer
/// prefix.
proof fn lemma_nondata_count_step(flags: Seq<bool>, i: int, n: int)
    requires
        0 <= i < n,
        !spec_is_data(flags, i),
    ensures
        spec_nondata_count(flags, i) < spec_nondata_count(flags, n),
    decreases n,
{
    if i < n - 1 {
        lemma_nondata_count_step(flags, i, n - 1);
    }
}

/// The equivalence stream holds one entry per non-data chunk, in order, and
/// each entry carries its chunk's opcode.
proof fn lemma_equiv_fold_opcodes(
    bytes: Seq<u8>,
    relocs: Seq<CanonReloc>,
    flags: Seq<bool>,
    p: Platform,
    n: int,
)
    requires
        0 <= n,
    ensures
        crate::fingerprint::spec_equiv_fold(bytes, relocs, flags, p, n).insns.len()
            == spec_nondata_count(flags, n),
        forall|i: int|
            0 <= i < n && !spec_is_data(flags, i)
                ==> #[trigger] crate::fingerprint::spec_equiv_fold(
                bytes,
                relocs,
                flags,
                p,
                n,
            ).insns[spec_nondata_count(flags, i)].opcode == crate::arch::spec_insn_opcode(
                bytes,
                i,
                p,
            ),
        forall|i: int| 0 <= i <= n ==> 0 <= #[trigger] spec_nondata_count(flags, i) <= i,
    decreases n,
{
    if n > 0 {
        lemma_equiv_fold_opcodes(bytes, relocs, flags, p, n - 1);
        let pre = crate::fingerprint::spec_equiv_fold(bytes, relocs, flags, p, n - 1);
        let cur = crate::fingerprint::spec_equiv_fold(bytes, relocs, flags, p, n);
        assert forall|i: int|
            0 <= i < n && !spec_is_data(flags, i) implies #[trigger] cur.insns[spec_nondata_count(
            flags,
            i,
        )].opcode == crate::arch::spec_insn_opcode(bytes, i, p) by {
            if i < n - 1 {
                lemma_nondata_count_step(flags, i, n - 1);
                if spec_is_data(flags, n - 1) {
                    assert(cur.insns == pre.insns);
                } else {
                    assert(cur.insns == pre.insns.push(cur.insns.last()));
                }
                assert(cur.insns[spec_nondata_count(flags, i)] == pre.insns[spec_nondata_count(
                    flags,
                    i,
                )]);
            } else {
                assert(!spec_is_data(flags, n - 1));
                assert(cur.insns.last().opcode == crate::arch::spec_insn_opcode(bytes, n - 1, p));
            }
        }
    }
}

/// The equivalence stream determines the opcode vector: two well-formed
/// symbols with equal equivalence streams, equally many instruction chunks
/// and the same inline-data marks — whatever their relocations — have
/// equal opcode vectors, and so equal opcode hashes. Symbols whose data
/// marks differ are the one exception: a data chunk contributes nothing to
/// the stream but does mark the opcode vector.
pub proof fn lemma_equiv_stream_determines_opcode_hash(a: Symbol, b: Symbol)
    requires
        a.wf(),
        b.wf(),
        crate::arch::spec_num_insns(a.bytes@, a.platform) == crate::arch::spec_num_insns(
            b.bytes@,
            b.platform,
        ),
        forall|i: int|
            0 <= i < crate::arch::spec_num_insns(a.bytes@, a.platform) ==> spec_is_data(
                a.data@,
                i,
            ) == spec_is_data(b.data@, i),
        spec_equiv_insns(a.bytes@, a.relocs@, a.data@, a.platform) == spec_equiv_insns(
            b.bytes@,
            b.relocs@,
            b.data@,
            b.platform,
        ),
    ensures
        a.opcodes@ == b.opcodes@,
        a.opcode_hash == b.opcode_hash,
{
    let n = crate::arch::spec_num_insns(a.bytes@, a.platform);
    lemma_equiv_fold_opcodes(a.bytes@, a.relocs@, a.data@, a.platform, n);
    lemma_equiv_fold_opcodes(b.bytes@, b.relocs@, b.data@, b.platform, n);
    let ia = spec_equiv_insns(a.bytes@, a.relocs@, a.data@, a.platform);
    let ib = spec_equiv_insns(b.bytes@, b.relocs@, b.data@, b.platform);
    assert forall|i: int| 0 <= i < n implies spec_nondata_count(a.data@, i)
        == spec_nondata_count(b.data@, i) by {
        lemma_nondata_count_agrees(a.data@, b.data@, i);
    }
    assert forall|i: int| 0 <= i < n implies a.opcodes@[i] == b.opcodes@[i] by {
        if !spec_is_data(a.data@, i) {
            let c = spec_nondata_count(a.data@, i);
            assert(ia[c].opcode == crate::arch::spec_insn_opcode(a.bytes@, i, a.platform));
            assert(spec_nondata_count(b.data@, i) == c);
            assert(ib[c].opcode == crate::arch::spec_insn_opcode(b.bytes@, i, b.platform));
        }
    }
    assert(a.opcodes@ =~= b.opcodes@);
}

/// Equal data marks over a prefix give equal non-data counts.
proof fn lemma_nondata_count_agrees(fa: Seq<bool>, fb: Seq<bool>, n: int)
    requires
        forall|i: int| 0 <= i < n ==> spec_is_data(fa, i) == spec_is_data(fb, i),
    ensures
        spec_nondata_count(fa, n) == spec_nondata_count(fb, n),
    decreases n,
{
    if n > 0 {
        lemma_nondata_count_agrees(fa, fb, n - 1);
    }
}

/// Layered match ordering: between well-formed symbols of one platform with
/// no relocations and the same inline-data marks, equal trimmed bytes force
/// all three hashes equal; and equal equivalence streams over equally many
/// chunks force equal opcode hashes — an implication that also survives
/// relocations, per [`lemma_equiv_stream_determines_opcode_hash`]. At the
/// hash level proper the implications additionally assume the 64-bit hash
/// does not collide, which no contract over a real hash can discharge.
pub proof fn lemma_layered_match_ordering(a: Symbol, b: Symbol)
    requires
        a.wf(),
        b.wf(),
        a.platform == b.platform,
        a.relocs@ == Seq::<CanonReloc>::empty(),
        b.relocs@ == Seq::<CanonReloc>::empty(),
        a.data@ == b.data@,
    ensures
        a.bytes@ == b.bytes@ ==> a.exact_hash == b.exact_hash && a.equiv_hash == b.equiv_hash
            && a.opcode_hash == b.opcode_hash,
        (crate::arch::spec_num_insns(a.bytes@, a.platform) == crate::arch::spec_num_insns(
            b.bytes@,
            b.platform,
        ) && spec_equiv_insns(a.bytes@, a.relocs@, a.data@, a.platform) == spec_equiv_insns(
            b.bytes@,
            b.relocs@,
            b.data@,
            b.platform,
        )) ==> a.opcode_hash == b.opcode_hash,
{
    if crate::arch::spec_num_insns(a.bytes@, a.platform) == crate::arch::spec_num_insns(
        b.bytes@,
        b.platform,
    ) && spec_equiv_insns(a.bytes@, a.relocs@, a.data@, a.platform) == spec_equiv_insns(
        b.bytes@,
        b.relocs@,
        b.data@,
        b.platform,
    ) {
        lemma_equiv_stream_determines_opcode_hash(a, b);
    }
}

} // verus!
