//! Relocation canonicalization.
//!
//! Raw relocation records of a section are turned into an address-keyed set
//! of canonical relocations. A canonical relocation's identity is the triple
//! `(target symbol, addend, kind)`: two sites collapse to the same identity
//! exactly when all three agree.
//!
//! On MIPS the 32-bit addend of a `HI16`/`LO16` pair is split across two
//! records; the pair is rebuilt in order of appearance: the last unconsumed
//! `HI16` addend combines with the next `LO16` as `(hi << 16) + sign_ext(lo)`
//! and the full addend is attributed to both sites. Any record of another
//! kind clears a pending `HI16`. On Thumb a relocation also covers the
//! half-word at `address + 2`, where the second half of a long branch sits.

use crate::platform::Arch;
use vstd::prelude::*;

verus! {

/// ELF relocation type: MIPS 26-bit jump target.
pub const RELOC_MIPS_26: u32 = 4;

/// ELF relocation type: MIPS high 16 bits of a split address.
pub const RELOC_MIPS_HI16: u32 = 5;

/// ELF relocation type: MIPS low 16 bits of a split address.
pub const RELOC_MIPS_LO16: u32 = 6;

/// A raw relocation record of a section, with the addend already made
/// explicit (read out of the section bytes where the format keeps it there).
#[derive(Debug, Clone, Copy, PartialEq, Eq, Structural)]
pub struct RawReloc {
    /// Address of the relocated site within the section's address space.
    pub offset: u64,
    /// Identifier of the target symbol.
    pub target: u64,
    /// Explicit addend, or the raw relocated field.
    pub addend: i64,
    /// ELF relocation type code.
    pub kind: u32,
}

/// A canonical relocation: one relocated site together with the identity
/// that equivalence hashing uses.
#[derive(Debug, Clone, Copy, PartialEq, Eq, Structural)]
pub struct CanonReloc {
    /// Address of the relocated site within the section's address space.
    pub offset: u64,
    /// Identifier of the target symbol.
    pub target: u64,
    /// Full signed addend.
    pub addend: i64,
    /// ELF relocation type code.
    pub kind: u32,
}

/// Errors of ingestion and of the query surface.
#[derive(Debug, Clone, Copy, PartialEq, Eq, Structural)]
pub enum CoddogError {
    /// A platform name was not recognised.
    UnknownPlatform,
    /// An input file could not be parsed at all.
    ParseFailed,
    /// A relocation kind the canonicalizer does not support.
    UnsupportedRelocation,
    /// A symbol's data range lies outside its section.
    SymbolOutOfBounds,
    /// A requested window width smaller than the database window width.
    WindowTooSmall,
    /// A lookup found nothing.
    NotFound,
    /// A name that must be unique is already taken.
    DuplicateName,
}

/// The low 16 bits of an addend, as the unsigned raw field.
pub open spec fn spec_low16(a: i64) -> u16 {
    (a & 0xFFFF) as u16
}

/// The full addend of a rebuilt `HI16`/`LO16` pair:
/// `(hi << 16) + sign_extend(lo)`.
pub open spec fn spec_combine_hi_lo(hi: u16, lo: u16) -> i64 {
    (((hi as i64) << 16) + (lo as i16) as i64) as i64
}

/// The PPC relocation kinds the canonicalizer accepts: word32, the three
/// 16-bit address halves, the two relative branches, and the small-data
/// form.
pub open spec fn spec_ppc_kind_ok(kind: u32) -> bool {
    kind == 1 || kind == 4 || kind == 5 || kind == 6 || kind == 10 || kind == 11 || kind == 109
}

/// State of the MIPS fold: the output so far and the pending `HI16`, if any,
/// as `(site offset, target, raw high half)`.
pub struct MipsFoldState {
    pub out: Seq<CanonReloc>,
    pub pending: Option<(u64, u64, u16)>,
}

/// One step of the MIPS fold.
pub open spec fn spec_mips_step(st: MipsFoldState, r: RawReloc) -> Result<MipsFoldState, CoddogError> {
    if r.kind == RELOC_MIPS_HI16 {
        Ok(MipsFoldState { out: st.out, pending: Some((r.offset, r.target, spec_low16(r.addend))) })
    } else if r.kind == RELOC_MIPS_LO16 {
        match st.pending {
            Some((hi_off, hi_target, hi)) => {
                let full = spec_combine_hi_lo(hi, spec_low16(r.addend));
                let hi_entry = CanonReloc {
                    offset: hi_off,
                    target: hi_target,
                    addend: full,
                    kind: RELOC_MIPS_HI16,
                };
                let lo_entry = CanonReloc {
                    offset: r.offset,
                    target: r.target,
                    addend: full,
                    kind: RELOC_MIPS_LO16,
                };
                Ok(MipsFoldState { out: st.out.push(hi_entry).push(lo_entry), pending: None })
            },
            None => {
                let full = (spec_low16(r.addend) as i16) as i64;
                let lo_entry = CanonReloc {
                    offset: r.offset,
                    target: r.target,
                    addend: full,
                    kind: RELOC_MIPS_LO16,
                };
                Ok(MipsFoldState { out: st.out.push(lo_entry), pending: None })
            },
        }
    } else if r.kind == RELOC_MIPS_26 {
        let entry = CanonReloc { offset: r.offset, target: r.target, addend: r.addend, kind: r.kind };
        Ok(MipsFoldState { out: st.out.push(entry), pending: None })
    } else {
        Err(CoddogError::UnsupportedRelocation)
    }
}

/// The MIPS fold over the first `n` records.
pub open spec fn spec_mips_fold(rs: Seq<RawReloc>, n: int) -> Result<MipsFoldState, CoddogError>
    decreases n,
{
    if n <= 0 {
        Ok(MipsFoldState { out: Seq::empty(), pending: None })
    } else {
        match spec_mips_fold(rs, n - 1) {
            Ok(st) => spec_mips_step(st, rs[n - 1]),
            Err(e) => Err(e),
        }
    }
}

/// Canonical relocations of a MIPS section, or the error of the first
/// unsupported record.
pub open spec fn spec_canonicalize_mips(rs: Seq<RawReloc>) -> Result<Seq<CanonReloc>, CoddogError> {
    match spec_mips_fold(rs, rs.len() as int) {
        Ok(st) => Ok(st.out),
        Err(e) => Err(e),
    }
}

/// Canonical relocations of a PPC section: each accepted record copied
/// through, or the error of the first unsupported one.
pub open spec fn spec_canonicalize_ppc(rs: Seq<RawReloc>, n: int) -> Result<Seq<CanonReloc>, CoddogError>
    decreases n,
{
    if n <= 0 {
        Ok(Seq::empty())
    } else {
        match spec_canonicalize_ppc(rs, n - 1) {
            Ok(out) => {
                let r = rs[n - 1];
                if spec_ppc_kind_ok(r.kind) {
                    Ok(out.push(CanonReloc { offset: r.offset, target: r.target, addend: r.addend, kind: r.kind }))
                } else {
                    Err(CoddogError::UnsupportedRelocation)
                }
            },
            Err(e) => Err(e),
        }
    }
}

/// Once the MIPS fold has failed, it stays failed.
proof fn lemma_mips_fold_err(rs: Seq<RawReloc>, m: int, n: int)
    requires
        0 <= m <= n <= rs.len(),
        spec_mips_fold(rs, m) is Err,
    ensures
        spec_mips_fold(rs, n) == spec_mips_fold(rs, m),
    decreases n - m,
{
    if m < n {
        lemma_mips_fold_err(rs, m, n - 1);
    }
}

/// Once the PPC fold has failed, it stays failed.
proof fn lemma_ppc_fold_err(rs: Seq<RawReloc>, m: int, n: int)
    requires
        0 <= m <= n <= rs.len(),
        spec_canonicalize_ppc(rs, m) is Err,
    ensures
        spec_canonicalize_ppc(rs, n) == spec_canonicalize_ppc(rs, m),
    decreases n - m,
{
    if m < n {
        lemma_ppc_fold_err(rs, m, n - 1);
    }
}

/// Canonical relocations of a Thumb section: each record copied through and
/// duplicated at `offset + 2`, so that the second half-word of a long branch
/// is covered too.
pub open spec fn spec_canonicalize_thumb(rs: Seq<RawReloc>, n: int) -> Seq<CanonReloc>
    decreases n,
{
    if n <= 0 {
        Seq::empty()
    } else {
        let r = rs[n - 1];
        let first = CanonReloc { offset: r.offset, target: r.target, addend: r.addend, kind: r.kind };
        let second = CanonReloc {
            offset: (r.offset + 2) as u64,
            target: r.target,
            addend: r.addend,
            kind: r.kind,
        };
        spec_canonicalize_thumb(rs, n - 1).push(first).push(second)
    }
}

/// Canonical relocations of a section under architecture `a`.
pub open spec fn spec_canonicalize(rs: Seq<RawReloc>, a: Arch) -> Result<Seq<CanonReloc>, CoddogError> {
    match a {
        Arch::Mips => spec_canonicalize_mips(rs),
        Arch::Ppc => spec_canonicalize_ppc(rs, rs.len() as int),
        Arch::Thumb => Ok(spec_canonicalize_thumb(rs, rs.len() as int)),
    }
}

/// Canonicalize the raw relocation records of one section.
///
/// MIPS rebuilds `HI16`/`LO16` pairs and rejects every kind outside its
/// supported set; PPC rejects unsupported kinds; Thumb covers `address + 2`
/// as well.
pub fn canonicalize_relocs(rs: &Vec<RawReloc>, a: Arch) -> (r: Result<Vec<CanonReloc>, CoddogError>)
    requires
        forall|k: int| 0 <= k < rs@.len() ==> rs@[k].offset + 2 <= u64::MAX,
    ensures
        r matches Ok(v) ==> spec_canonicalize(rs@, a) matches Ok(s) && v@ == s,
        r matches Err(e) ==> spec_canonicalize(rs@, a) matches Err(e2) && e == e2,
{
    match a {
        Arch::Mips => {
            let mut out: Vec<CanonReloc> = Vec::new();
            let mut pending: Option<(u64, u64, u16)> = None;
            let mut i: usize = 0;
            while i < rs.len()
                invariant
                    a == Arch::Mips,
                    i <= rs@.len(),
                    forall|k: int| 0 <= k < rs@.len() ==> rs@[k].offset + 2 <= u64::MAX,
                    spec_mips_fold(rs@, i as int) matches Ok(st) && st.out == out@ && st.pending
                        == pending,
                decreases rs@.len() - i,
            {
                let r = rs[i];
                if r.kind == RELOC_MIPS_HI16 {
                    pending = Some((r.offset, r.target, (r.addend & 0xFFFF) as u16));
                } else if r.kind == RELOC_MIPS_LO16 {
                    match pending {
                        Some((hi_off, hi_target, hi)) => {
                            let lo = (r.addend & 0xFFFF) as u16;
                            let shifted: i64 = (hi as i64) << 16u64;
                            proof {
                                assert(0 <= ((hi as i64) << 16u64)
                                    <= 0xFFFF0000) by (bit_vector);
                            }
                            let full = shifted + (lo as i16) as i64;
                            proof {
                                assert(full == spec_combine_hi_lo(hi, lo));
                            }
                            out.push(
                                CanonReloc {
                                    offset: hi_off,
                                    target: hi_target,
                                    addend: full,
                                    kind: RELOC_MIPS_HI16,
                                },
                            );
                            out.push(
                                CanonReloc {
                                    offset: r.offset,
                                    target: r.target,
                                    addend: full,
                                    kind: RELOC_MIPS_LO16,
                                },
                            );
                            pending = None;
                        },
                        None => {
                            let lo = (r.addend & 0xFFFF) as u16;
                            out.push(
                                CanonReloc {
                                    offset: r.offset,
                                    target: r.target,
                                    addend: (lo as i16) as i64,
                                    kind: RELOC_MIPS_LO16,
                                },
                            );
                        },
                    }
                } else if r.kind == RELOC_MIPS_26 {
                    out.push(
                        CanonReloc {
                            offset: r.offset,
                            target: r.target,
                            addend: r.addend,
                            kind: r.kind,
                        },
                    );
                    pending = None;
                } else {
                    proof {
                        assert(spec_mips_fold(rs@, i + 1) is Err);
                        lemma_mips_fold_err(rs@, i + 1, rs@.len() as int);
                    }
                    return Err(CoddogError::UnsupportedRelocation);
                }
                i = i + 1;
            }
            Ok(out)
        },
        Arch::Ppc => {
            let mut out: Vec<CanonReloc> = Vec::new();
            let mut i: usize = 0;
            while i < rs.len()
                invariant
                    a == Arch::Ppc,
                    i <= rs@.len(),
                    spec_canonicalize_ppc(rs@, i as int) matches Ok(s) && s == out@,
                decreases rs@.len() - i,
            {
                let r = rs[i];
                let ok = r.kind == 1 || r.kind == 4 || r.kind == 5 || r.kind == 6 || r.kind == 10
                    || r.kind == 11 || r.kind == 109;
                if !ok {
                    proof {
                        assert(spec_canonicalize_ppc(rs@, i + 1) is Err);
                        lemma_ppc_fold_err(rs@, i + 1, rs@.len() as int);
                    }
                    return Err(CoddogError::UnsupportedRelocation);
                }
                out.push(
                    CanonReloc { offset: r.offset, target: r.target, addend: r.addend, kind: r.kind },
                );
                i = i + 1;
            }
            Ok(out)
        },
        Arch::Thumb => {
            let mut out: Vec<CanonReloc> = Vec::new();
            let mut i: usize = 0;
            while i < rs.len()
                invariant
                    a == Arch::Thumb,
                    i <= rs@.len(),
                    forall|k: int| 0 <= k < rs@.len() ==> rs@[k].offset + 2 <= u64::MAX,
                    out@ == spec_canonicalize_thumb(rs@, i as int),
                decreases rs@.len() - i,
            {
                let r = rs[i];
                out.push(
                    CanonReloc { offset: r.offset, target: r.target, addend: r.addend, kind: r.kind },
                );
                out.push(
                    CanonReloc {
                        offset: r.offset + 2,
                        target: r.target,
                        addend: r.addend,
                        kind: r.kind,
                    },
                );
                i = i + 1;
            }
            Ok(out)
        },
    }
}

/// The first canonical relocation at site `off`, if any.
pub open spec fn spec_find_reloc(rs: Seq<CanonReloc>, off: u64) -> Option<CanonReloc>
    decreases rs.len(),
{
    if rs.len() == 0 {
        None
    } else if rs[0].offset == off {
        Some(rs[0])
    } else {
        spec_find_reloc(rs.drop_first(), off)
    }
}

/// Look up the canonical relocation at site `off`.
pub fn find_reloc(rs: &Vec<CanonReloc>, off: u64) -> (r: Option<CanonReloc>)
    ensures
        r == spec_find_reloc(rs@, off),
{
    let mut i: usize = 0;
    proof {
        assert(rs@.skip(0) =~= rs@);
    }
    while i < rs.len()
        invariant
            i <= rs@.len(),
            spec_find_reloc(rs@, off) == spec_find_reloc(rs@.skip(i as int), off),
            forall|k: int| 0 <= k < i ==> rs@[k].offset != off,
        decreases rs@.len() - i,
    {
        if rs[i].offset == off {
            proof {
                assert(rs@.skip(i as int)[0] == rs@[i as int]);
            }
            return Some(rs[i]);
        }
        proof {
            assert(rs@.skip(i as int).drop_first() =~= rs@.skip(i + 1));
        }
        i = i + 1;
    }
    proof {
        assert(rs@.skip(rs@.len() as int).len() == 0);
    }
    None
}

} // verus!
