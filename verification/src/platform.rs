//! Platform and architecture dispatch.
//!
//! A platform names one shipped machine (N64, PSX, ...); it determines an
//! instruction set architecture, a byte order, and a standard instruction
//! length. The mapping is total and fixed at build time.

use vstd::prelude::*;
use vstd::string::StringSliceAdditionalSpecFns;

verus! {

/// Byte order of a platform's instruction words.
#[derive(Debug, Clone, Copy, PartialEq, Eq, Hash, Structural)]
pub enum Endianness {
    Little,
    Big,
}

/// Instruction set architecture of a platform.
#[derive(Debug, Clone, Copy, PartialEq, Eq, Hash, Structural)]
pub enum Arch {
    Mips,
    Ppc,
    Thumb,
}

/// A supported target platform.
#[derive(Debug, Clone, Copy, PartialEq, Eq, Hash, Structural)]
pub enum Platform {
    N64,
    Psx,
    Ps2,
    Psp,
    GcWii,
    Gba,
}

/// Standard instruction length in bytes of an architecture.
pub open spec fn spec_insn_length(a: Arch) -> usize {
    match a {
        Arch::Mips => 4usize,
        Arch::Ppc => 4usize,
        Arch::Thumb => 2usize,
    }
}

/// Architecture of a platform.
pub open spec fn spec_arch(p: Platform) -> Arch {
    match p {
        Platform::N64 => Arch::Mips,
        Platform::Psx => Arch::Mips,
        Platform::Ps2 => Arch::Mips,
        Platform::Psp => Arch::Mips,
        Platform::GcWii => Arch::Ppc,
        Platform::Gba => Arch::Thumb,
    }
}

/// Byte order of a platform.
pub open spec fn spec_endianness(p: Platform) -> Endianness {
    match p {
        Platform::N64 => Endianness::Big,
        Platform::Psx => Endianness::Little,
        Platform::Ps2 => Endianness::Little,
        Platform::Psp => Endianness::Little,
        Platform::GcWii => Endianness::Big,
        Platform::Gba => Endianness::Little,
    }
}

/// Stable numeric identifier of a platform, as persisted in the store.
pub open spec fn spec_platform_id(p: Platform) -> i32 {
    match p {
        Platform::N64 => 0i32,
        Platform::Psx => 1i32,
        Platform::Ps2 => 2i32,
        Platform::Psp => 3i32,
        Platform::GcWii => 4i32,
        Platform::Gba => 5i32,
    }
}

/// ASCII lower-casing of a byte string; other bytes are unchanged.
pub open spec fn spec_ascii_lower(s: Seq<u8>) -> Seq<u8> {
    s.map_values(|b: u8| if 'A' as u8 <= b <= 'Z' as u8 { (b + 32) as u8 } else { b })
}

/// The canonical platform names, matched case-insensitively.
pub open spec fn spec_platform_from_name(lower: Seq<u8>) -> Option<Platform> {
    if lower == "n64".spec_bytes() {
        Some(Platform::N64)
    } else if lower == "psx".spec_bytes() {
        Some(Platform::Psx)
    } else if lower == "ps2".spec_bytes() {
        Some(Platform::Ps2)
    } else if lower == "psp".spec_bytes() {
        Some(Platform::Psp)
    } else if lower == "gc_wii".spec_bytes() {
        Some(Platform::GcWii)
    } else if lower == "gba".spec_bytes() {
        Some(Platform::Gba)
    } else {
        None
    }
}

/// The decomp.me platform aliases, matched exactly.
pub open spec fn spec_platform_from_decompme_name(s: Seq<u8>) -> Option<Platform> {
    if s == "n64".spec_bytes() {
        Some(Platform::N64)
    } else if s == "ps1".spec_bytes() {
        Some(Platform::Psx)
    } else if s == "ps2".spec_bytes() {
        Some(Platform::Ps2)
    } else if s == "psp".spec_bytes() {
        Some(Platform::Psp)
    } else if s == "gc_wii".spec_bytes() {
        Some(Platform::GcWii)
    } else if s == "gba".spec_bytes() {
        Some(Platform::Gba)
    } else {
        None
    }
}

impl Arch {
    /// Standard instruction length in bytes: 4 for MIPS and PPC, 2 for Thumb.
    pub fn insn_length(&self) -> (r: usize)
        ensures
            r == spec_insn_length(*self),
            r == 2 || r == 4,
    {
        match self {
            Arch::Mips => 4,
            Arch::Ppc => 4,
            Arch::Thumb => 2,
        }
    }

    /// Same as [`Self::insn_length`], under the name used by older call sites.
    pub fn standard_insn_length(&self) -> (r: usize)
        ensures
            r == spec_insn_length(*self),
    {
        self.insn_length()
    }
}

/// Compare two byte slices for equality.
fn bytes_eq(a: &[u8], b: &[u8]) -> (r: bool)
    ensures
        r == (a@ == b@),
{
    if a.len() != b.len() {
        proof {
            assert(a@.len() != b@.len());
        }
        return false;
    }
    let mut i: usize = 0;
    while i < a.len()
        invariant
            i <= a@.len(),
            a@.len() == b@.len(),
            forall|j: int| 0 <= j < i ==> a@[j] == b@[j],
        decreases a@.len() - i,
    {
        if a[i] != b[i] {
            return false;
        }
        i = i + 1;
    }
    proof {
        assert(a@ =~= b@);
    }
    true
}

/// ASCII-lowercase a byte string.
fn ascii_lower(s: &[u8]) -> (r: Vec<u8>)
    ensures
        r@ == spec_ascii_lower(s@),
{
    let mut r: Vec<u8> = Vec::new();
    let mut i: usize = 0;
    while i < s.len()
        invariant
            i <= s@.len(),
            r@ =~= spec_ascii_lower(s@).subrange(0, i as int),
        decreases s@.len() - i,
    {
        let b = s[i];
        if 'A' as u8 <= b && b <= 'Z' as u8 {
            r.push(b + 32);
        } else {
            r.push(b);
        }
        i = i + 1;
        proof {
            assert(r@ =~= spec_ascii_lower(s@).subrange(0, i as int));
        }
    }
    proof {
        assert(r@ =~= spec_ascii_lower(s@));
    }
    r
}

/// ASCII-lowercase the bytes of a string.
pub fn lower_bytes(s: &str) -> (r: Vec<u8>)
    ensures
        r@ == spec_ascii_lower(s.spec_bytes()),
{
    ascii_lower(s.as_bytes())
}

impl Platform {
    /// Parse a canonical platform name, case-insensitively.
    /// Returns `None` for every unrecognised name.
    pub fn from_name(name: &str) -> (r: Option<Platform>)
        ensures
            r == spec_platform_from_name(spec_ascii_lower(name.spec_bytes())),
    {
        let lower = ascii_lower(name.as_bytes());
        let l = lower.as_slice();
        if bytes_eq(l, "n64".as_bytes()) {
            Some(Platform::N64)
        } else if bytes_eq(l, "psx".as_bytes()) {
            Some(Platform::Psx)
        } else if bytes_eq(l, "ps2".as_bytes()) {
            Some(Platform::Ps2)
        } else if bytes_eq(l, "psp".as_bytes()) {
            Some(Platform::Psp)
        } else if bytes_eq(l, "gc_wii".as_bytes()) {
            Some(Platform::GcWii)
        } else if bytes_eq(l, "gba".as_bytes()) {
            Some(Platform::Gba)
        } else {
            None
        }
    }

    /// Parse a canonical platform name (alias of [`Self::from_name`] kept for
    /// older call sites).
    pub fn of(name: &str) -> (r: Option<Platform>)
        ensures
            r == spec_platform_from_name(spec_ascii_lower(name.spec_bytes())),
    {
        Self::from_name(name)
    }

    /// Parse a decomp.me platform alias. Aliases of platforms whose
    /// architecture is unsupported map to `None`, as does every unknown name.
    pub fn from_decompme_name(name: &str) -> (r: Option<Platform>)
        ensures
            r == spec_platform_from_decompme_name(name.spec_bytes()),
    {
        let l = name.as_bytes();
        if bytes_eq(l, "n64".as_bytes()) {
            Some(Platform::N64)
        } else if bytes_eq(l, "ps1".as_bytes()) {
            Some(Platform::Psx)
        } else if bytes_eq(l, "ps2".as_bytes()) {
            Some(Platform::Ps2)
        } else if bytes_eq(l, "psp".as_bytes()) {
            Some(Platform::Psp)
        } else if bytes_eq(l, "gc_wii".as_bytes()) {
            Some(Platform::GcWii)
        } else if bytes_eq(l, "gba".as_bytes()) {
            Some(Platform::Gba)
        } else {
            None
        }
    }

    /// Architecture of this platform.
    pub fn arch(&self) -> (r: Arch)
        ensures
            r == spec_arch(*self),
    {
        match self {
            Platform::N64 => Arch::Mips,
            Platform::Psx => Arch::Mips,
            Platform::Ps2 => Arch::Mips,
            Platform::Psp => Arch::Mips,
            Platform::GcWii => Arch::Ppc,
            Platform::Gba => Arch::Thumb,
        }
    }

    /// Byte order of this platform.
    pub fn endianness(&self) -> (r: Endianness)
        ensures
            r == spec_endianness(*self),
    {
        match self {
            Platform::N64 => Endianness::Big,
            Platform::Psx => Endianness::Little,
            Platform::Ps2 => Endianness::Little,
            Platform::Psp => Endianness::Little,
            Platform::GcWii => Endianness::Big,
            Platform::Gba => Endianness::Little,
        }
    }

    /// Stable numeric identifier, as persisted in the store.
    pub fn platform_id(&self) -> (r: i32)
        ensures
            r == spec_platform_id(*self),
    {
        match self {
            Platform::N64 => 0,
            Platform::Psx => 1,
            Platform::Ps2 => 2,
            Platform::Psp => 3,
            Platform::GcWii => 4,
            Platform::Gba => 5,
        }
    }

    /// Inverse of [`Self::platform_id`]; `None` for identifiers outside the
    /// stored range.
    pub fn from_id(id: i32) -> (r: Option<Platform>)
        ensures
            r matches Some(p) ==> spec_platform_id(p) == id,
            r is None ==> forall|p: Platform| spec_platform_id(p) != id,
    {
        match id {
            0 => Some(Platform::N64),
            1 => Some(Platform::Psx),
            2 => Some(Platform::Ps2),
            3 => Some(Platform::Psp),
            4 => Some(Platform::GcWii),
            5 => Some(Platform::Gba),
            _ => None,
        }
    }
}

} // verus!
