//! Symbol ingestion out of object files and raw ROM images.
//!
//! An object file's sections, symbols and relocation records come from the
//! outside parser as plain records; the selection of function symbols, the
//! slicing of their bytes, the rebuilding of implicit addends, relocation
//! canonicalization and fingerprinting are all verified logic here. The raw
//! image path slices symbols out of the image along a linker map's `.text`
//! entries and fingerprints them without relocations.

use crate::arch::{read_u32, spec_read_u32};
use crate::fingerprint::spec_trim;
use crate::platform::{Arch, Platform, spec_arch, spec_endianness, spec_insn_length};
use crate::reloc::{canonicalize_relocs, spec_canonicalize, CanonReloc, CoddogError, RawReloc,
    RELOC_MIPS_26, RELOC_MIPS_HI16, RELOC_MIPS_LO16};
use crate::symbol::{Symbol, SymbolDef};
use crate::store::clone_string;
use vstd::prelude::*;
use vstd::string::StringSliceAdditionalSpecFns;

use object::{Object, ObjectSection, ObjectSymbol};

verus! {

/// One symbol record of an object file, as the outside parser reports it.
pub struct ElfSymRec {
    /// Symbol name.
    pub name: String,
    /// Address within its section's address space.
    pub address: u64,
    /// Size in bytes.
    pub size: u64,
    /// Whether the symbol is a function (text) symbol.
    pub is_text: bool,
    /// Whether the symbol is hidden (its visibility is not the default).
    pub hidden: bool,
    /// Index of the symbol's section, or `u64::MAX` for none.
    pub section: u64,
}

/// One relocation record of a section, as the outside parser reports it.
pub struct ElfRelocRec {
    /// Address of the relocated site within the section.
    pub offset: u64,
    /// Index of the target symbol, or `u64::MAX` for another target kind.
    pub target: u64,
    /// Explicit addend, zero when the addend is implicit.
    pub addend: i64,
    /// ELF relocation type code.
    pub kind: u32,
    /// Whether the addend lives in the section bytes.
    pub implicit: bool,
}

/// The symbol table that the outside parser extracts from `data`, or
/// nothing when the file is unparseable.
pub uninterp spec fn elf_syms_of(data: Seq<u8>) -> Option<Vec<ElfSymRec>>;

/// The bytes and base address of section `idx` of `data`, if present.
pub uninterp spec fn elf_section_of(data: Seq<u8>, idx: u64) -> Option<(Vec<u8>, u64)>;

/// The relocation records of section `idx` of `data`.
pub uninterp spec fn elf_relocs_of(data: Seq<u8>, idx: u64) -> Vec<ElfRelocRec>;

/// Relies on object's `File::parse` and its symbol table accessors
/// (including `SymbolFlags::elf_visibility`): the parsed symbol records
/// are a function of the file bytes alone.
#[verifier::external_body]
fn elf_symbols(data: &[u8]) -> (r: Option<Vec<ElfSymRec>>)
    ensures
        r == elf_syms_of(data@),
{
    let file = match object::File::parse(data) { Ok(f) => f, Err(_) => return None };
    Some(file.symbols().map(|s| ElfSymRec {
        name: s.name().unwrap_or("").to_string(),
        address: s.address(),
        size: s.size(),
        is_text: s.kind() == object::SymbolKind::Text,
        hidden: match s.flags().elf_visibility() {
            Some(v) => v != object::elf::STV_DEFAULT,
            None => false,
        },
        section: match s.section_index() { Some(i) => i.0 as u64, None => u64::MAX },
    }).collect())
}

/// Relies on object's `File::parse`, `section_by_index`, `Section::data`
/// and `Section::address`: a section's bytes and base address are functions
/// of the file bytes and the index alone.
#[verifier::external_body]
fn elf_section(data: &[u8], idx: u64) -> (r: Option<(Vec<u8>, u64)>)
    ensures
        r == elf_section_of(data@, idx),
{
    let file = match object::File::parse(data) { Ok(f) => f, Err(_) => return None };
    let sec = match file.section_by_index(object::SectionIndex(idx as usize)) {
        Ok(s) => s,
        Err(_) => return None,
    };
    match sec.data() { Ok(b) => Some((b.to_vec(), sec.address())), Err(_) => None }
}

/// Relies on object's `Section::relocations` and the relocation accessors
/// `target`, `addend`, `flags` and `has_implicit_addend`: a section's
/// relocation records are a function of the file bytes and the index alone.
#[verifier::external_body]
fn elf_relocs(data: &[u8], idx: u64) -> (r: Vec<ElfRelocRec>)
    ensures
        r == elf_relocs_of(data@, idx),
{
    let file = match object::File::parse(data) { Ok(f) => f, Err(_) => return Vec::new() };
    let sec = match file.section_by_index(object::SectionIndex(idx as usize)) {
        Ok(s) => s,
        Err(_) => return Vec::new(),
    };
    sec.relocations().map(|(off, rel)| ElfRelocRec {
        offset: off,
        target: match rel.target() { object::RelocationTarget::Symbol(s) => s.0 as u64, _ => u64::MAX },
        addend: rel.addend(),
        kind: match rel.flags() { object::RelocationFlags::Elf { r_type } => r_type.0, _ => 0xFFFF_FFFF },
        implicit: rel.has_implicit_addend(),
    }).collect()
}

/// The implicit addend of a MIPS relocation site: the raw relocated field
/// of the instruction word at the site.
pub open spec fn spec_mips_implicit_addend(word: u32, kind: u32) -> i64 {
    if kind == RELOC_MIPS_HI16 || kind == RELOC_MIPS_LO16 {
        (word & 0xFFFF) as i64
    } else if kind == RELOC_MIPS_26 {
        ((word & 0x3FF_FFFF) as i64) << 2
    } else {
        word as i64
    }
}

/// The raw relocation records of one symbol's range, rebased to
/// symbol-relative offsets, with implicit MIPS addends read out of the
/// section bytes. Records outside the range are dropped; an implicit
/// addend site without a whole word in range contributes a zero addend.
pub open spec fn spec_symbol_raw_relocs(
    relocs: Seq<ElfRelocRec>,
    sect: Seq<u8>,
    sect_addr: int,
    sym_addr: int,
    sym_size: int,
    p: Platform,
    n: int,
) -> Seq<RawReloc>
    decreases n,
{
    if n <= 0 {
        Seq::empty()
    } else {
        let pre = spec_symbol_raw_relocs(relocs, sect, sect_addr, sym_addr, sym_size, p, n - 1);
        let r = relocs[n - 1];
        if sym_addr <= r.offset && (r.offset as int) < sym_addr + sym_size {
            let off = (r.offset - sym_addr) as u64;
            let addend = if r.implicit && spec_arch(p) == Arch::Mips {
                let site = r.offset - sect_addr;
                if 0 <= site && site + 4 <= sect.len() {
                    spec_mips_implicit_addend(
                        spec_read_u32(sect, site as int, spec_endianness(p)),
                        r.kind,
                    )
                } else {
                    0
                }
            } else {
                r.addend
            };
            pre.push(RawReloc { offset: off, target: r.target, addend, kind: r.kind })
        } else {
            pre
        }
    }
}

/// Gather the raw relocations of one symbol's range.
fn symbol_raw_relocs(
    relocs: &Vec<ElfRelocRec>,
    sect: &Vec<u8>,
    sect_addr: u64,
    sym_addr: u64,
    sym_size: u64,
    p: Platform,
) -> (r: Vec<RawReloc>)
    requires
        sym_addr + sym_size + 2 <= u64::MAX,
    ensures
        r@ == spec_symbol_raw_relocs(
            relocs@,
            sect@,
            sect_addr as int,
            sym_addr as int,
            sym_size as int,
            p,
            relocs@.len() as int,
        ),
        forall|k: int| 0 <= k < r@.len() ==> (#[trigger] r@[k]).offset + 2 <= u64::MAX,
{
    let e = p.endianness();
    let is_mips = match p.arch() {
        Arch::Mips => true,
        _ => false,
    };
    // bind the section length so its bound is in scope for the prover
    let _len: usize = sect.len();
    let mut out: Vec<RawReloc> = Vec::new();
    let mut i: usize = 0;
    while i < relocs.len()
        invariant
            i <= relocs@.len(),
            sym_addr + sym_size + 2 <= u64::MAX,
            sect@.len() <= u64::MAX,
            e == spec_endianness(p),
            is_mips == (spec_arch(p) == Arch::Mips),
            out@ == spec_symbol_raw_relocs(
                relocs@,
                sect@,
                sect_addr as int,
                sym_addr as int,
                sym_size as int,
                p,
                i as int,
            ),
            forall|k: int| 0 <= k < out@.len() ==> (#[trigger] out@[k]).offset + 2 <= u64::MAX,
        decreases relocs@.len() - i,
    {
        let r = &relocs[i];
        if sym_addr <= r.offset && r.offset < sym_addr + sym_size {
            let off = r.offset - sym_addr;
            let addend: i64 = if r.implicit && is_mips {
                let sect_len_u64 = sect.len() as u64;
                if r.offset >= sect_addr && r.offset - sect_addr <= u64::MAX - 4 && (r.offset
                    - sect_addr) + 4 <= sect_len_u64 {
                    let site = (r.offset - sect_addr) as usize;
                    let word = read_u32(sect.as_slice(), site, e);
                    if r.kind == RELOC_MIPS_HI16 || r.kind == RELOC_MIPS_LO16 {
                        (word & 0xFFFF) as i64
                    } else if r.kind == RELOC_MIPS_26 {
                        ((word & 0x3FF_FFFF) as i64) << 2u64
                    } else {
                        word as i64
                    }
                } else {
                    0
                }
            } else {
                r.addend
            };
            out.push(RawReloc { offset: off, target: r.target, addend, kind: r.kind });
        }
        i = i + 1;
    }
    out
}

/// Whether `name` occurs in the name list `l`.
pub open spec fn spec_name_in(l: Seq<Seq<char>>, name: Seq<char>) -> bool
    decreases l.len(),
{
    if l.len() == 0 {
        false
    } else if l[0] == name {
        true
    } else {
        spec_name_in(l.drop_first(), name)
    }
}

/// Whether a name occurs in the optional list of still-unmatched functions.
pub open spec fn spec_in_list(list: Option<Seq<Seq<char>>>, name: Seq<char>) -> bool {
    match list {
        Some(l) => spec_name_in(l, name),
        None => false,
    }
}

/// Whether a symbol of this name counts as decompiled: with no list of
/// unmatched functions every symbol does; with one, exactly the names not
/// on it.
pub open spec fn spec_is_decompiled(list: Option<Seq<Seq<char>>>, name: Seq<char>) -> bool {
    !spec_in_list(list, name)
}

/// The view of an optional name list.
pub open spec fn spec_list_view(list: &Option<Vec<String>>) -> Option<Seq<Seq<char>>> {
    match list {
        Some(l) => Some(l.deep_view()),
        None => None,
    }
}

/// Whether a name occurs in the optional list.
fn in_list(list: &Option<Vec<String>>, name: &String) -> (r: bool)
    ensures
        r == spec_in_list(spec_list_view(list), name@),
{
    match list {
        Some(l) => {
            let ghost dv = l.deep_view();
            proof {
                assert(dv.skip(0) =~= dv);
            }
            let mut k: usize = 0;
            while k < l.len()
                invariant
                    k <= l@.len(),
                    dv == l.deep_view(),
                    dv.len() == l@.len(),
                    spec_list_view(list) == Some(dv),
                    spec_name_in(dv, name@) == spec_name_in(dv.skip(k as int), name@),
                decreases l@.len() - k,
            {
                proof {
                    assert(l.deep_view()[k as int] == l@[k as int]@);
                    assert(dv.skip(k as int)[0] == dv[k as int]);
                }
                if l[k] == *name {
                    return true;
                }
                proof {
                    assert(dv.skip(k as int).drop_first() =~= dv.skip(k + 1));
                }
                k = k + 1;
            }
            proof {
                assert(dv.skip(dv.len() as int).len() == 0);
            }
            false
        },
        None => false,
    }
}

/// Copy the byte range `[from, to)` of a section.
fn slice_bytes(sect: &Vec<u8>, from: usize, to: usize) -> (r: Vec<u8>)
    requires
        from <= to <= sect@.len(),
    ensures
        r@ == sect@.subrange(from as int, to as int),
{
    let mut r: Vec<u8> = Vec::new();
    let mut i: usize = from;
    while i < to
        invariant
            from <= i <= to <= sect@.len(),
            r@ =~= sect@.subrange(from as int, i as int),
        decreases to - i,
    {
        r.push(sect[i]);
        i = i + 1;
        proof {
            assert(r@ =~= sect@.subrange(from as int, i as int));
        }
    }
    proof {
        assert(r@ =~= sect@.subrange(from as int, to as int));
    }
    r
}



/// Whether a parsed record is an inline-data mapping marker: a symbol
/// whose name opens with `$d`, the convention marking literal pools inside
/// code sections.
pub open spec fn spec_is_data_marker(r: ElfSymRec) -> bool {
    &&& crate::store::spec_string_bytes(r.name@).len() >= 2
    &&& crate::store::spec_string_bytes(r.name@)[0] == '$' as u8
    &&& crate::store::spec_string_bytes(r.name@)[1] == 'd' as u8
}

/// Whether a parsed record is a code mapping marker (`$t` or `$a`).
pub open spec fn spec_is_code_marker(r: ElfSymRec) -> bool {
    &&& crate::store::spec_string_bytes(r.name@).len() >= 2
    &&& crate::store::spec_string_bytes(r.name@)[0] == '$' as u8
    &&& (crate::store::spec_string_bytes(r.name@)[1] == 't' as u8
        || crate::store::spec_string_bytes(r.name@)[1] == 'a' as u8)
}

/// The mapping marker governing `addr` within `section` among the first
/// `n` records: the marker with the greatest address at or below `addr`,
/// later records winning ties; the flag tells whether it marks data.
pub open spec fn spec_marker_at(recs: Seq<ElfSymRec>, section: u64, addr: int, n: int) -> Option<
    (u64, bool),
>
    decreases n,
{
    if n <= 0 {
        None
    } else {
        let pre = spec_marker_at(recs, section, addr, n - 1);
        let r = recs[n - 1];
        if r.section == section && r.address <= addr && (spec_is_data_marker(r)
            || spec_is_code_marker(r)) && (match pre {
            None => true,
            Some(m) => m.0 <= r.address,
        }) {
            Some((r.address, spec_is_data_marker(r)))
        } else {
            pre
        }
    }
}

/// Whether the chunk at `addr` in `section` lies in an inline-data range.
pub open spec fn spec_chunk_is_data(recs: Seq<ElfSymRec>, section: u64, addr: int) -> bool {
    spec_marker_at(recs, section, addr, recs.len() as int) matches Some(m) && m.1
}

/// Whether a record's name opens with `$` and the given letter.
fn name_marker(r: &ElfSymRec, letter: u8) -> (b: bool)
    ensures
        b == (crate::store::spec_string_bytes(r.name@).len() >= 2
            && crate::store::spec_string_bytes(r.name@)[0] == '$' as u8
            && crate::store::spec_string_bytes(r.name@)[1] == letter),
{
    let bs = r.name.as_str().as_bytes();
    bs.len() >= 2 && bs[0] == '$' as u8 && bs[1] == letter
}

/// The mapping marker governing `addr` within `section`.
fn marker_at(recs: &Vec<ElfSymRec>, section: u64, addr: u64) -> (r: Option<(u64, bool)>)
    ensures
        r == spec_marker_at(recs@, section, addr as int, recs@.len() as int),
{
    let mut best: Option<(u64, bool)> = None;
    let mut k: usize = 0;
    while k < recs.len()
        invariant
            k <= recs@.len(),
            best == spec_marker_at(recs@, section, addr as int, k as int),
        decreases recs@.len() - k,
    {
        let rec = &recs[k];
        let is_data = name_marker(rec, 'd' as u8);
        let is_code = name_marker(rec, 't' as u8) || name_marker(rec, 'a' as u8);
        let dominated = match best {
            None => true,
            Some(m) => m.0 <= rec.address,
        };
        if rec.section == section && rec.address <= addr && (is_data || is_code) && dominated {
            best = Some((rec.address, is_data));
        }
        k = k + 1;
    }
    best
}

/// The per-chunk inline-data marks of one symbol's range, read off the
/// section's mapping markers.
fn data_flags(
    recs: &Vec<ElfSymRec>,
    section: u64,
    sym_addr: u64,
    size: usize,
    insn_len: usize,
) -> (r: Vec<bool>)
    requires
        1 <= insn_len,
        sym_addr + size <= u64::MAX,
    ensures
        r@.len() == size as int / insn_len as int,
        forall|i: int|
            0 <= i < r@.len() ==> #[trigger] r@[i] == spec_chunk_is_data(
                recs@,
                section,
                sym_addr + i * insn_len,
            ),
{
    let n = size / insn_len;
    let mut r: Vec<bool> = Vec::new();
    let mut i: usize = 0;
    while i < n
        invariant
            n == size as int / insn_len as int,
            1 <= insn_len,
            sym_addr + size <= u64::MAX,
            i <= n,
            r@.len() == i,
            forall|t: int|
                0 <= t < i ==> #[trigger] r@[t] == spec_chunk_is_data(
                    recs@,
                    section,
                    sym_addr + t * insn_len,
                ),
        decreases n - i,
    {
        proof {
            assert(i * insn_len < n * insn_len || n == 0) by (nonlinear_arith)
                requires
                    i < n,
                    insn_len >= 1,
            ;
            assert(n * insn_len <= size) by (nonlinear_arith)
                requires
                    n == size as int / insn_len as int,
                    insn_len >= 1,
            ;
        }
        let addr = sym_addr + (i * insn_len) as u64;
        let m = marker_at(recs, section, addr);
        let flag = match m {
            Some(m) => m.1,
            None => false,
        };
        r.push(flag);
        i = i + 1;
    }
    r
}

/// The plan for one parsed symbol record: the byte slice and canonical
/// relocations that fingerprinting will receive, or nothing when the
/// record is skipped — a non-function, hidden or empty symbol, a missing
/// section, a data range outside the section, or an uncanonicalizable
/// relocation.
pub open spec fn spec_rec_plan(data: Seq<u8>, recs: Seq<ElfSymRec>, rec: ElfSymRec, p: Platform) -> Option<
    (Seq<u8>, Seq<CanonReloc>, Seq<bool>),
> {
    if rec.size > 0 && rec.is_text && !rec.hidden && rec.section != u64::MAX && rec.size
        <= u64::MAX - 2 && rec.address <= u64::MAX - 2 - rec.size {
        match elf_section_of(data, rec.section) {
            Some(sect) => {
                if rec.address >= sect.1 && rec.address - sect.1 <= usize::MAX as u64 && rec.size
                    <= usize::MAX as u64 && rec.address - sect.1 <= sect.0@.len() && rec.size
                    <= sect.0@.len() - (rec.address - sect.1) {
                    let from = rec.address - sect.1;
                    let bytes = sect.0@.subrange(from as int, from + rec.size);
                    let raw = spec_symbol_raw_relocs(
                        elf_relocs_of(data, rec.section)@,
                        sect.0@,
                        sect.1 as int,
                        rec.address as int,
                        rec.size as int,
                        p,
                        elf_relocs_of(data, rec.section)@.len() as int,
                    );
                    let flags = Seq::new(
                        (rec.size as int / spec_insn_length(spec_arch(p)) as int) as nat,
                        |i: int| spec_chunk_is_data(
                            recs,
                            rec.section,
                            rec.address + i * spec_insn_length(spec_arch(p)),
                        ),
                    );
                    match spec_canonicalize(raw, spec_arch(p)) {
                        Ok(canon) => Some((bytes, canon, flags)),
                        Err(_) => None,
                    }
                } else {
                    None
                }
            },
            None => None,
        }
    } else {
        None
    }
}

/// The ingestion plan of the first `n` parsed records: for each record
/// that is not skipped, its index, name, address, byte slice and canonical
/// relocations, in record order.
pub open spec fn spec_elf_plan(data: Seq<u8>, recs: Seq<ElfSymRec>, p: Platform, n: int) -> Seq<
    (int, Seq<char>, u64, Seq<u8>, Seq<CanonReloc>, Seq<bool>),
>
    decreases n,
{
    if n <= 0 {
        Seq::empty()
    } else {
        let pre = spec_elf_plan(data, recs, p, n - 1);
        match spec_rec_plan(data, recs, recs[n - 1], p) {
            Some(plan) => pre.push(
                (n - 1, recs[n - 1].name@, recs[n - 1].address, plan.0, plan.1, plan.2),
            ),
            None => pre,
        }
    }
}

/// Read symbols out of an object file: every function symbol with a
/// section and a positive size whose data range lies inside its section
/// and whose relocations canonicalize is sliced out, canonicalized and
/// fingerprinted; the others are skipped. Only a file the parser cannot
/// read at all is an error.
///
/// The result follows the ingestion plan record for record: each returned
/// symbol carries its record's name, address and index, the trimmed bytes
/// of its slice, its canonical relocations, and — through well-formedness
/// — the three fingerprints of exactly those ingredients.
pub fn read_elf(
    platform: Platform,
    unmatched_funcs: &Option<Vec<String>>,
    elf_data: &[u8],
) -> (r: Result<Vec<Symbol>, CoddogError>)
    ensures
        r matches Err(e) ==> e == CoddogError::ParseFailed && elf_syms_of(elf_data@) is None,
        r matches Ok(syms) ==> elf_syms_of(elf_data@) matches Some(recs) && {
            let plan = spec_elf_plan(elf_data@, recs@, platform, recs@.len() as int);
            &&& syms@.len() == plan.len()
            &&& forall|t: int|
                0 <= t < syms@.len() ==> {
                    &&& (#[trigger] syms@[t]).wf()
                    &&& syms@[t].platform == platform
                    &&& syms@[t].name@ == plan[t].1
                    &&& syms@[t].symbol_idx == plan[t].0
                    &&& (plan[t].2 <= usize::MAX as u64 ==> syms@[t].vram == plan[t].2)
                    &&& syms@[t].bytes@ == spec_trim(
                        plan[t].3,
                        spec_insn_length(spec_arch(platform)) as int,
                    )
                    &&& syms@[t].relocs@ == plan[t].4
                    &&& syms@[t].data@ == plan[t].5
                    &&& syms@[t].is_decompiled == spec_is_decompiled(
                        spec_list_view(unmatched_funcs),
                        syms@[t].name@,
                    )
                }
        },
{
    let recs = match elf_symbols(elf_data) {
        Some(recs) => recs,
        None => {
            return Err(CoddogError::ParseFailed);
        },
    };
    let mut out: Vec<Symbol> = Vec::new();
    let mut i: usize = 0;
    while i < recs.len()
        invariant
            i <= recs@.len(),
            elf_syms_of(elf_data@) == Some(recs),
            out@.len() == spec_elf_plan(elf_data@, recs@, platform, i as int).len(),
            forall|t: int|
                0 <= t < out@.len() ==> {
                    let plan = spec_elf_plan(elf_data@, recs@, platform, i as int);
                    &&& (#[trigger] out@[t]).wf()
                    &&& out@[t].platform == platform
                    &&& out@[t].name@ == plan[t].1
                    &&& out@[t].symbol_idx == plan[t].0
                    &&& (plan[t].2 <= usize::MAX as u64 ==> out@[t].vram == plan[t].2)
                    &&& out@[t].bytes@ == spec_trim(
                        plan[t].3,
                        spec_insn_length(spec_arch(platform)) as int,
                    )
                    &&& out@[t].relocs@ == plan[t].4
                    &&& out@[t].data@ == plan[t].5
                    &&& out@[t].is_decompiled == spec_is_decompiled(
                        spec_list_view(unmatched_funcs),
                        out@[t].name@,
                    )
                },
        decreases recs@.len() - i,
    {
        let ghost pre_plan = spec_elf_plan(elf_data@, recs@, platform, i as int);
        let rec = &recs[i];
        if rec.size > 0 && rec.is_text && !rec.hidden && rec.section != u64::MAX && rec.size
            <= u64::MAX - 2 && rec.address <= u64::MAX - 2 - rec.size {
            match elf_section(elf_data, rec.section) {
                Some((sect_bytes, sect_addr)) => {
                    // the symbol's data range within the section, robust to
                    // sections whose virtual address is not zero
                    if rec.address >= sect_addr && rec.address - sect_addr <= usize::MAX as u64
                        && rec.size <= usize::MAX as u64 {
                        let from = (rec.address - sect_addr) as usize;
                        let size = rec.size as usize;
                        if from <= sect_bytes.len() && size <= sect_bytes.len() - from {
                            let bytes = slice_bytes(&sect_bytes, from, from + size);
                            let relocs = elf_relocs(elf_data, rec.section);
                            let raw = symbol_raw_relocs(
                                &relocs,
                                &sect_bytes,
                                sect_addr,
                                rec.address,
                                rec.size,
                                platform,
                            );
                            let insn_len = platform.arch().insn_length();
                            let flags = data_flags(&recs, rec.section, rec.address, size, insn_len);
                            proof {
                                assert(flags@ =~= Seq::new(
                                    (rec.size as int / spec_insn_length(
                                        spec_arch(platform),
                                    ) as int) as nat,
                                    |t: int| spec_chunk_is_data(
                                        recs@,
                                        rec.section,
                                        rec.address + t * spec_insn_length(spec_arch(platform)),
                                    ),
                                ));
                            }
                            match canonicalize_relocs(&raw, platform.arch()) {
                                Ok(canon) => {
                                    let def = SymbolDef {
                                        name: clone_string(&rec.name),
                                        bytes,
                                        vram: if rec.address <= usize::MAX as u64 {
                                            rec.address as usize
                                        } else {
                                            0
                                        },
                                        is_decompiled: !in_list(unmatched_funcs, &rec.name),
                                        platform,
                                        symbol_idx: i,
                                        data: flags,
                                    };
                                    let sym = Symbol::new(def, &canon);
                                    out.push(sym);
                                },
                                Err(_) => {
                                    // unsupported relocation: skip this symbol
                                },
                            }
                        }
                    }
                },
                None => {
                    // missing or unreadable section: skip this symbol
                },
            }
        }
        i = i + 1;
    }
    Ok(out)
}


// ---------------------------------------------------------------------------
// Linker-map text sanity
// ---------------------------------------------------------------------------

/// The ASCII whitespace bytes the map parser splits on.
pub open spec fn spec_map_ws(b: u8) -> bool {
    b == 9 || b == 10 || b == 11 || b == 12 || b == 13 || b == 32
}

/// An ASCII hexadecimal digit.
pub open spec fn spec_hex_digit(b: u8) -> bool {
    ('0' as u8 <= b && b <= '9' as u8) || ('a' as u8 <= b && b <= 'f' as u8) || ('A' as u8 <= b
        && b <= 'F' as u8)
}

/// A token with every leading `0x` pair removed, the way the parser strips
/// hexadecimal prefixes.
pub open spec fn spec_strip_0x(t: Seq<u8>) -> Seq<u8>
    decreases t.len(),
{
    if t.len() >= 2 && t[0] == '0' as u8 && t[1] == 'x' as u8 {
        spec_strip_0x(t.skip(2))
    } else {
        t
    }
}

/// Number of significant digits: the length with leading zeros dropped.
pub open spec fn spec_sig_len(t: Seq<u8>) -> int
    decreases t.len(),
{
    if t.len() > 0 && t[0] == '0' as u8 {
        spec_sig_len(t.drop_first())
    } else {
        t.len() as int
    }
}

/// Whether a number token is safe for the parser: non-empty, hexadecimal,
/// and small enough for a 64-bit value.
pub open spec fn spec_hex_payload_ok(t: Seq<u8>) -> bool {
    &&& t.len() > 0
    &&& forall|k: int| 0 <= k < t.len() ==> spec_hex_digit(#[trigger] t[k])
    &&& spec_sig_len(t) <= 16
}

/// Whether one whitespace-delimited token of a linker map is safe: a token
/// opening with `0x` must carry a well-formed 64-bit hexadecimal payload,
/// and a token made of hexadecimal digits alone must fit 64 bits.
pub open spec fn spec_map_token_ok(t: Seq<u8>) -> bool {
    &&& (t.len() >= 2 && t[0] == '0' as u8 && t[1] == 'x' as u8) ==> spec_hex_payload_ok(
        spec_strip_0x(t),
    )
    &&& (t.len() > 0 && (forall|k: int| 0 <= k < t.len() ==> spec_hex_digit(#[trigger] t[k])))
        ==> spec_sig_len(t) <= 16
}

/// Whether `[i, j)` is a maximal whitespace-delimited token of `s`.
pub open spec fn spec_token_span(s: Seq<u8>, i: int, j: int) -> bool {
    &&& 0 <= i < j <= s.len()
    &&& forall|k: int| i <= k < j ==> !spec_map_ws(#[trigger] s[k])
    &&& (i == 0 || spec_map_ws(s[i - 1]))
    &&& (j == s.len() || spec_map_ws(s[j]))
}

/// Whether a linker map text is safe to hand to the outside parser: plain
/// ASCII, with every number-shaped token a well-formed 64-bit hexadecimal.
/// The parser aborts on malformed or oversized hexadecimal fields; this
/// predicate fences them off (conservatively: it also rejects signed or
/// non-ASCII number tokens the parser might happen to accept).
pub open spec fn spec_map_text_ok(s: Seq<u8>) -> bool {
    &&& forall|k: int| 0 <= k < s.len() ==> (#[trigger] s[k]) < 0x80
    &&& forall|i: int, j: int| spec_token_span(s, i, j) ==> spec_map_token_ok(s.subrange(i, j))
}

/// Whether the byte is one the map parser splits tokens on.
fn map_ws(b: u8) -> (r: bool)
    ensures
        r == spec_map_ws(b),
{
    b == 9 || b == 10 || b == 11 || b == 12 || b == 13 || b == 32
}

/// Whether the byte is an ASCII hexadecimal digit.
fn hex_digit(b: u8) -> (r: bool)
    ensures
        r == spec_hex_digit(b),
{
    ('0' as u8 <= b && b <= '9' as u8) || ('a' as u8 <= b && b <= 'f' as u8) || ('A' as u8 <= b
        && b <= 'F' as u8)
}

/// Check one token `[i, j)` of `s`.
#[verifier::rlimit(50)]
fn map_token_ok(s: &[u8], i: usize, j: usize) -> (r: bool)
    requires
        i < j <= s@.len(),
    ensures
        r == spec_map_token_ok(s@.subrange(i as int, j as int)),
{
    let ghost tok = s@.subrange(i as int, j as int);
    proof {
        assert(tok.skip(0) =~= tok);
        assert(tok[0] == s@[i as int]);
        if tok.len() >= 2 {
            assert(tok[1] == s@[i + 1]);
        }
    }
    // strip every leading `0x` pair
    let starts_0x = j - i >= 2 && s[i] == '0' as u8 && s[i + 1] == 'x' as u8;
    if starts_0x {
        let mut k: usize = i;
        while k < j - 1 && s[k] == '0' as u8 && s[k + 1] == 'x' as u8
            invariant
                i < j,
                i <= k <= j <= s@.len(),
                tok == s@.subrange(i as int, j as int),
                (k - i) % 2 == 0,
                spec_strip_0x(tok) == spec_strip_0x(tok.skip(k - i)),
            decreases j - k,
        {
            proof {
                assert(tok.skip(k - i)[0] == s@[k as int]);
                assert(tok.skip(k - i)[1] == s@[k + 1]);
                assert(tok.skip(k - i).skip(2) =~= tok.skip(k + 2 - i));
            }
            k = k + 2;
        }
        proof {
            if k - i < tok.len() {
                assert(tok.skip(k - i)[0] == s@[k as int]);
                if k + 1 < j {
                    assert(tok.skip(k - i)[1] == s@[k + 1]);
                }
            }
            assert(spec_strip_0x(tok) == tok.skip(k - i));
        }
        // the payload must be non-empty hexadecimal fitting 64 bits
        if k == j {
            proof {
                assert(tok.skip(k - i).len() == 0);
            }
            return false;
        }
        let mut t: usize = k;
        while t < j
            invariant
                k <= t <= j <= s@.len(),
                k < j,
                tok == s@.subrange(i as int, j as int),
                i <= k,
                tok.len() >= 2 && tok[0] == '0' as u8 && tok[1] == 'x' as u8,
                spec_strip_0x(tok) == tok.skip(k - i),
                forall|u: int| k <= u < t ==> spec_hex_digit(#[trigger] s@[u]),
            decreases j - t,
        {
            if !hex_digit(s[t]) {
                proof {
                    assert(tok.skip(k - i)[t - k] == s@[t as int]);
                }
                return false;
            }
            t = t + 1;
        }
        let mut z: usize = k;
        while z < j && s[z] == '0' as u8
            invariant
                k <= z <= j <= s@.len(),
                i <= k < j,
                tok == s@.subrange(i as int, j as int),
                spec_strip_0x(tok) == tok.skip(k - i),
                spec_sig_len(tok.skip(k - i)) == spec_sig_len(tok.skip(z - i)),
            decreases j - z,
        {
            proof {
                assert(tok.skip(z - i)[0] == s@[z as int]);
                assert(tok.skip(z - i).drop_first() =~= tok.skip(z + 1 - i));
            }
            z = z + 1;
        }
        proof {
            if z < j {
                assert(tok.skip(z - i)[0] == s@[z as int]);
            }
            assert(spec_sig_len(tok.skip(z - i)) == tok.len() - (z - i));
            assert forall|u: int| 0 <= u < tok.skip(k - i).len() implies spec_hex_digit(
                #[trigger] tok.skip(k - i)[u],
            ) by {
                assert(tok.skip(k - i)[u] == s@[k + u]);
            }
        }
        return j - z <= 16;
    }
    // a token of bare hexadecimal digits must fit 64 bits
    let mut t: usize = i;
    while t < j
        invariant
            i <= t <= j <= s@.len(),
            tok == s@.subrange(i as int, j as int),
            !(tok.len() >= 2 && tok[0] == '0' as u8 && tok[1] == 'x' as u8),
            forall|u: int| i <= u < t ==> spec_hex_digit(#[trigger] s@[u]),
        decreases j - t,
    {
        if !hex_digit(s[t]) {
            proof {
                assert(tok[t - i] == s@[t as int]);
            }
            return true;
        }
        t = t + 1;
    }
    proof {
        assert forall|u: int| 0 <= u < tok.len() implies spec_hex_digit(#[trigger] tok[u]) by {
            assert(tok[u] == s@[i + u]);
        }
    }
    let mut z: usize = i;
    while z < j && s[z] == '0' as u8
        invariant
            i <= z <= j <= s@.len(),
            tok == s@.subrange(i as int, j as int),
            spec_sig_len(tok) == spec_sig_len(tok.skip(z - i)),
        decreases j - z,
    {
        proof {
            assert(tok.skip(z - i)[0] == s@[z as int]);
            assert(tok.skip(z - i).drop_first() =~= tok.skip(z + 1 - i));
        }
        z = z + 1;
    }
    proof {
        if z < j {
            assert(tok.skip(z - i)[0] == s@[z as int]);
        }
        assert(spec_sig_len(tok.skip(z - i)) == tok.len() - (z - i));
    }
    j - z <= 16
}

/// Whether a linker map text is safe to hand to the outside parser.
pub fn map_text_ok(s: &[u8]) -> (r: bool)
    ensures
        r == spec_map_text_ok(s@),
{
    let n = s.len();
    let mut k: usize = 0;
    while k < n
        invariant
            k <= n,
            n == s@.len(),
            forall|u: int| 0 <= u < k ==> (#[trigger] s@[u]) < 0x80,
        decreases n - k,
    {
        if s[k] >= 0x80 {
            return false;
        }
        k = k + 1;
    }
    let mut i: usize = 0;
    while i < n
        invariant
            i <= n,
            n == s@.len(),
            forall|u: int| 0 <= u < s@.len() ==> (#[trigger] s@[u]) < 0x80,
            i == 0 || i == n || spec_map_ws(s@[i - 1]) || spec_map_ws(s@[i as int]),
            forall|i0: int, j0: int|
                spec_token_span(s@, i0, j0) && i0 < i ==> spec_map_token_ok(
                    s@.subrange(i0, j0),
                ),
        decreases n - i,
    {
        if map_ws(s[i]) {
            proof {
                assert forall|i0: int, j0: int|
                    spec_token_span(s@, i0, j0) && i0 < i + 1 implies spec_map_token_ok(
                    s@.subrange(i0, j0),
                ) by {
                    if i0 == i {
                        assert(!spec_map_ws(s@[i0]));
                    }
                }
            }
            i = i + 1;
        } else {
            // a token starts here; find its end
            let mut j: usize = i;
            while j < n && !map_ws(s[j])
                invariant
                    i <= j <= n,
                    n == s@.len(),
                    forall|u: int| i <= u < j ==> !spec_map_ws(#[trigger] s@[u]),
                decreases n - j,
            {
                j = j + 1;
            }
            proof {
                assert(spec_token_span(s@, i as int, j as int));
            }
            if !map_token_ok(s, i, j) {
                return false;
            }
            proof {
                assert forall|i0: int, j0: int|
                    spec_token_span(s@, i0, j0) && i0 < j implies spec_map_token_ok(
                    s@.subrange(i0, j0),
                ) by {
                    if i0 >= i {
                        // a span starting inside this token must start at it
                        // and end where it ends
                        assert(i0 == i) by {
                            if i0 > i {
                                assert(!spec_map_ws(s@[i0 - 1]));
                            }
                        }
                        assert(j0 == j) by {
                            if j0 < j {
                                assert(!spec_map_ws(s@[j0]));
                            }
                            if j0 > j {
                                assert(spec_map_ws(s@[j as int]));
                                assert(!spec_map_ws(s@[j as int]));
                            }
                        }
                    }
                }
            }
            i = j;
        }
    }
    true
}

/// One `.text` symbol of a linker map.
pub struct MapSymRec {
    /// The section type the symbol sits in.
    pub section_type: String,
    /// Symbol name.
    pub name: String,
    /// The symbol's memory address.
    pub vram: u64,
    /// The symbol's offset within the ROM image, or `u64::MAX` when the
    /// map gives none.
    pub vrom: u64,
    /// Size in bytes.
    pub size: u64,
}

/// The symbols of every section of a linker map, flattened in map order.
pub uninterp spec fn map_syms_of(map: Seq<char>) -> Vec<MapSymRec>;

/// Relies on mapfile_parser's `MapFile::new_from_map_str` and its segment,
/// section and symbol lists: the parsed records are a function of the map
/// text alone. The parser aborts on a malformed or oversized hexadecimal
/// field; the `requires` admits only texts whose number tokens are sound,
/// which [`map_text_ok`] establishes.
#[verifier::external_body]
fn map_symbols(map_str: &str) -> (r: Vec<MapSymRec>)
    requires
        spec_map_text_ok(map_str.spec_bytes()),
    ensures
        r == map_syms_of(map_str@),
{
    let mapfile = mapfile_parser::MapFile::new_from_map_str(map_str);
    let mut out = Vec::new();
    for segment in &mapfile.segments_list {
        for section in &segment.sections_list {
            for sym in &section.symbols {
                out.push(MapSymRec {
                    section_type: section.section_type.clone(), name: sym.name.clone(),
                    vram: sym.vram, vrom: sym.vrom.unwrap_or(u64::MAX), size: sym.size,
                });
            }
        }
    }
    out
}

/// The plan for one linker-map record: the ROM byte slice that
/// fingerprinting will receive, or nothing when the record is skipped — a
/// section other than `.text`, a missing ROM offset, or a range outside
/// the image.
pub open spec fn spec_map_rec_plan(rom: Seq<u8>, rec: MapSymRec) -> Option<Seq<u8>> {
    if rec.vrom != u64::MAX && crate::store::spec_string_bytes(rec.section_type@)
        == ".text".spec_bytes() && rec.vrom <= usize::MAX as u64 && rec.size <= usize::MAX as u64
        && rec.vrom <= rom.len() && rec.size <= rom.len() - rec.vrom {
        Some(rom.subrange(rec.vrom as int, rec.vrom + rec.size))
    } else {
        None
    }
}

/// The ingestion plan of the first `n` linker-map records.
pub open spec fn spec_map_plan(rom: Seq<u8>, recs: Seq<MapSymRec>, n: int) -> Seq<
    (int, Seq<char>, u64, Seq<u8>),
>
    decreases n,
{
    if n <= 0 {
        Seq::empty()
    } else {
        let pre = spec_map_plan(rom, recs, n - 1);
        match spec_map_rec_plan(rom, recs[n - 1]) {
            Some(bytes) => pre.push((n - 1, recs[n - 1].name@, recs[n - 1].vram, bytes)),
            None => pre,
        }
    }
}

/// Read symbols out of a raw ROM image along a linker map: every `.text`
/// symbol with a ROM offset whose range lies inside the image is sliced
/// out and fingerprinted with no relocations.
///
/// The result follows the ingestion plan record for record; with an empty
/// relocation set the equivalence hash discriminates less than an object
/// file's would. Symbols are counted as decompiled exactly as on the
/// object-file path: every symbol is, unless a list of still-unmatched
/// functions names it.
pub fn read_map(
    platform: Platform,
    unmatched_funcs: &Option<Vec<String>>,
    rom_bytes: &Vec<u8>,
    map_str: &str,
) -> (r: Result<Vec<Symbol>, CoddogError>)
    ensures
        r matches Err(e) ==> e == CoddogError::ParseFailed && !spec_map_text_ok(
            map_str.spec_bytes(),
        ),
        r matches Ok(syms) ==> spec_map_text_ok(map_str.spec_bytes()) && {
            let plan = spec_map_plan(
                rom_bytes@,
                map_syms_of(map_str@)@,
                map_syms_of(map_str@)@.len() as int,
            );
            &&& syms@.len() == plan.len()
            &&& forall|t: int|
                0 <= t < syms@.len() ==> {
                    &&& (#[trigger] syms@[t]).wf()
                    &&& syms@[t].platform == platform
                    &&& syms@[t].name@ == plan[t].1
                    &&& syms@[t].symbol_idx == plan[t].0
                    &&& (plan[t].2 <= usize::MAX as u64 ==> syms@[t].vram == plan[t].2)
                    &&& syms@[t].bytes@ == spec_trim(
                        plan[t].3,
                        spec_insn_length(spec_arch(platform)) as int,
                    )
                    &&& syms@[t].relocs@ == Seq::<CanonReloc>::empty()
                    &&& syms@[t].data@ == Seq::<bool>::empty()
                    &&& syms@[t].is_decompiled == spec_is_decompiled(
                        spec_list_view(unmatched_funcs),
                        syms@[t].name@,
                    )
                }
        },
{
    if !map_text_ok(map_str.as_bytes()) {
        return Err(CoddogError::ParseFailed);
    }
    let recs = map_symbols(map_str);
    let empty_relocs: Vec<CanonReloc> = Vec::new();
    let mut out: Vec<Symbol> = Vec::new();
    let mut i: usize = 0;
    while i < recs.len()
        invariant
            i <= recs@.len(),
            recs == map_syms_of(map_str@),
            empty_relocs@ == Seq::<CanonReloc>::empty(),
            out@.len() == spec_map_plan(rom_bytes@, recs@, i as int).len(),
            forall|t: int|
                0 <= t < out@.len() ==> {
                    let plan = spec_map_plan(rom_bytes@, recs@, i as int);
                    &&& (#[trigger] out@[t]).wf()
                    &&& out@[t].platform == platform
                    &&& out@[t].name@ == plan[t].1
                    &&& out@[t].symbol_idx == plan[t].0
                    &&& (plan[t].2 <= usize::MAX as u64 ==> out@[t].vram == plan[t].2)
                    &&& out@[t].bytes@ == spec_trim(
                        plan[t].3,
                        spec_insn_length(spec_arch(platform)) as int,
                    )
                    &&& out@[t].relocs@ == Seq::<CanonReloc>::empty()
                    &&& out@[t].data@ == Seq::<bool>::empty()
                    &&& out@[t].is_decompiled == spec_is_decompiled(
                        spec_list_view(unmatched_funcs),
                        out@[t].name@,
                    )
                },
        decreases recs@.len() - i,
    {
        let rec = &recs[i];
        if rec.vrom != u64::MAX && crate::text::bytes_eq(
            rec.section_type.as_str().as_bytes(),
            ".text".as_bytes(),
        ) {
            if rec.vrom <= usize::MAX as u64 && rec.size <= usize::MAX as u64 {
                let from = rec.vrom as usize;
                let size = rec.size as usize;
                if from <= rom_bytes.len() && size <= rom_bytes.len() - from {
                    let bytes = slice_bytes(rom_bytes, from, from + size);
                    let def = SymbolDef {
                        name: clone_string(&rec.name),
                        bytes,
                        vram: if rec.vram <= usize::MAX as u64 {
                            rec.vram as usize
                        } else {
                            0
                        },
                        is_decompiled: !in_list(unmatched_funcs, &rec.name),
                        platform,
                        symbol_idx: i,
                        data: Vec::new(),
                    };
                    let sym = Symbol::new(def, &empty_relocs);
                    out.push(sym);
                }
            }
        }
        i = i + 1;
    }
    Ok(out)
}

} // verus!
