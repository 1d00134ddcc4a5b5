//! Code-similarity fingerprinting for compiled functions.
//!
//! The crate ingests symbols out of object files or raw ROM images, decodes
//! their instructions per architecture, canonicalizes relocations, and
//! computes three layered fingerprints per symbol (exact, equivalence,
//! opcode), together with rolling window hashes that drive a windowed
//! longest-common-run search across a corpus of symbols.

pub mod arch;
pub mod cluster;
pub mod compare;
pub mod fingerprint;
pub mod hashing;
pub mod ingest;
pub mod platform;
pub mod reloc;
pub mod store;
pub mod submatch;
pub mod symbol;
pub mod text;

pub use platform::{Arch, Endianness, Platform};
pub use cluster::{Cluster, get_clusters};
pub use compare::{InsnSeqMatch, Ratio, best_match, compare_binaries, diff_symbols, get_submatches};
pub use hashing::get_hashes;
pub use ingest::{read_elf, read_map};
pub use symbol::{Binary, Symbol, SymbolDef};
