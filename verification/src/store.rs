//! The in-memory store: the join graph of projects, versions, sources,
//! objects, symbols and window hashes, with the equality-lookup channels and
//! the windowed submatch query over it.
//!
//! Symbol rows are kept denormalized — each row carries its enclosing
//! source, version, object and project — so every lookup's result is plain
//! row filtering, and the submatch query attaches metadata by copying the
//! matched row.

use crate::platform::Platform;
use crate::reloc::CoddogError;
use crate::submatch::{pair_runs, spec_pair_runs};
use crate::platform::spec_ascii_lower;
use vstd::prelude::*;
use vstd::string::StringSliceAdditionalSpecFns;

verus! {

/// A project row.
#[derive(Debug)]
pub struct Project {
    /// Surrogate id.
    pub id: i64,
    /// Unique project name.
    pub name: String,
    /// Repository link, if known.
    pub repo: Option<String>,
}

/// A version row: one build of a project.
#[derive(Debug)]
pub struct Version {
    /// Surrogate id.
    pub id: i64,
    /// Version name.
    pub name: String,
    /// Numeric platform identifier.
    pub platform: i32,
    /// Owning project.
    pub project_id: i64,
}

/// An object row: one content-addressed on-disk copy of a source's bytes.
#[derive(Debug)]
pub struct StoredObject {
    /// Surrogate id.
    pub id: i64,
    /// Content digest, in hexadecimal; unique.
    pub digest: String,
    /// Path of the on-disk blob.
    pub local_path: String,
}

/// A source row: one ingested object file.
#[derive(Debug)]
pub struct Source {
    /// Surrogate id.
    pub id: i64,
    /// Source name.
    pub name: String,
    /// Link to the source's origin, if any.
    pub source_link: Option<String>,
    /// The content-addressed object holding the bytes.
    pub object_id: i64,
    /// Version this source belongs to, if any.
    pub version_id: Option<i64>,
    /// Owning project.
    pub project_id: i64,
}

/// A stored symbol row, denormalized with its enclosing source, object,
/// version and project.
#[derive(Debug)]
pub struct DBSymbol {
    /// Surrogate id.
    pub id: i64,
    /// Unique slug.
    pub slug: String,
    /// Length of the symbol in bytes.
    pub len: i32,
    /// Symbol name.
    pub name: String,
    /// Whether the symbol is already decompiled.
    pub is_decompiled: bool,
    /// The symbol's index in its object file.
    pub symbol_idx: i32,
    /// Opcode fingerprint, as the signed bit pattern.
    pub opcode_hash: i64,
    /// Equivalence fingerprint, as the signed bit pattern.
    pub equiv_hash: i64,
    /// Exact fingerprint, as the signed bit pattern.
    pub exact_hash: i64,
    /// Owning source.
    pub source_id: i64,
    /// Owning source's name.
    pub source_name: String,
    /// Path of the source's object blob.
    pub object_path: String,
    /// The symbol's index in its object file, as stored.
    pub object_symbol_idx: i32,
    /// Owning object row.
    pub object_id: i64,
    /// Version of the owning source, if any.
    pub version_id: Option<i64>,
    /// Name of that version, if any.
    pub version_name: Option<String>,
    /// Owning project.
    pub project_id: i64,
    /// Owning project's name.
    pub project_name: String,
    /// Owning project's repository link, if any.
    pub project_repo: Option<String>,
    /// Numeric platform identifier.
    pub platform: i32,
}

/// The window hashes of one stored symbol.
#[derive(Debug)]
pub struct SymbolWindows {
    /// The symbol the windows belong to.
    pub symbol_id: i64,
    /// One hash per window start position.
    pub hashes: Vec<u64>,
}

/// The whole store.
pub struct Store {
    /// Project rows.
    pub projects: Vec<Project>,
    /// Version rows.
    pub versions: Vec<Version>,
    /// Object rows, unique by digest.
    pub objects: Vec<StoredObject>,
    /// Source rows.
    pub sources: Vec<Source>,
    /// Symbol rows.
    pub symbols: Vec<DBSymbol>,
    /// Window hashes, one entry per symbol.
    pub windows: Vec<SymbolWindows>,
    /// Next surrogate id to hand out.
    pub next_id: i64,
}

/// Copy a string, preserving its characters.
pub fn clone_string(s: &String) -> (r: String)
    ensures
        r == *s,
{
    s.clone()
}

/// Copy an optional string, preserving its characters.
pub fn clone_opt_string(s: &Option<String>) -> (r: Option<String>)
    ensures
        r == *s,
{
    match s {
        Some(x) => Some(x.clone()),
        None => None,
    }
}

impl DBSymbol {
    /// Copy a symbol row.
    pub fn duplicate(&self) -> (r: DBSymbol)
        ensures
            r == *self,
    {
        DBSymbol {
            id: self.id,
            slug: clone_string(&self.slug),
            len: self.len,
            name: clone_string(&self.name),
            is_decompiled: self.is_decompiled,
            symbol_idx: self.symbol_idx,
            opcode_hash: self.opcode_hash,
            equiv_hash: self.equiv_hash,
            exact_hash: self.exact_hash,
            source_id: self.source_id,
            source_name: clone_string(&self.source_name),
            object_path: clone_string(&self.object_path),
            object_symbol_idx: self.object_symbol_idx,
            object_id: self.object_id,
            version_id: self.version_id,
            version_name: clone_opt_string(&self.version_name),
            project_id: self.project_id,
            project_name: clone_string(&self.project_name),
            project_repo: clone_opt_string(&self.project_repo),
            platform: self.platform,
        }
    }

    /// Number of instructions of the symbol: its byte length divided by the
    /// platform's instruction length.
    pub fn get_num_insns(&self) -> (r: i32)
        requires
            crate::platform::spec_platform_id(spec_stored_platform(self.platform)) == self.platform,
            self.len >= 0,
        ensures
            r == self.len as int / crate::platform::spec_insn_length(
                crate::platform::spec_arch(spec_stored_platform(self.platform)),
            ) as int,
    {
        let p = match Platform::from_id(self.platform) {
            Some(p) => p,
            None => {
                proof {
                    let sp = spec_stored_platform(self.platform);
                    assert(crate::platform::spec_platform_id(sp) == self.platform);
                    assert(false);
                }
                Platform::N64
            },
        };
        self.len / (p.arch().insn_length() as i32)
    }
}

/// The platform a stored numeric identifier denotes; meaningful only for
/// identifiers that [`Platform::platform_id`] hands out.
pub open spec fn spec_stored_platform(id: i32) -> Platform {
    if id == 1 {
        Platform::Psx
    } else if id == 2 {
        Platform::Ps2
    } else if id == 3 {
        Platform::Psp
    } else if id == 4 {
        Platform::GcWii
    } else if id == 5 {
        Platform::Gba
    } else {
        Platform::N64
    }
}

/// Symbol metadata as handed to callers of the lookup channels.
#[derive(Debug)]
pub struct SymbolMetadata {
    /// Unique slug.
    pub slug: String,
    /// Symbol name.
    pub name: String,
    /// Whether the symbol is already decompiled.
    pub is_decompiled: bool,
    /// Length of the symbol in instructions.
    pub len: i32,
    /// Owning source.
    pub source_id: i64,
    /// Owning source's name.
    pub source_name: String,
    /// Version of the owning source, if any.
    pub version_id: Option<i64>,
    /// Name of that version, if any.
    pub version_name: Option<String>,
    /// Owning project.
    pub project_id: i64,
    /// Owning project's name.
    pub project_name: String,
    /// Owning project's repository link, if any.
    pub project_repo: Option<String>,
    /// Numeric platform identifier.
    pub platform: i32,
}

impl SymbolMetadata {
    /// Metadata of a stored symbol row, with the length given in
    /// instructions rather than bytes.
    pub fn from_db_symbol(symbol: &DBSymbol) -> (r: SymbolMetadata)
        requires
            crate::platform::spec_platform_id(spec_stored_platform(symbol.platform))
                == symbol.platform,
            symbol.len >= 0,
        ensures
            r.slug == symbol.slug,
            r.name == symbol.name,
            r.is_decompiled == symbol.is_decompiled,
            r.len == symbol.len as int / crate::platform::spec_insn_length(
                crate::platform::spec_arch(spec_stored_platform(symbol.platform)),
            ) as int,
            r.source_id == symbol.source_id,
            r.source_name == symbol.source_name,
            r.version_id == symbol.version_id,
            r.version_name == symbol.version_name,
            r.project_id == symbol.project_id,
            r.project_name == symbol.project_name,
            r.project_repo == symbol.project_repo,
            r.platform == symbol.platform,
    {
        SymbolMetadata {
            slug: clone_string(&symbol.slug),
            name: clone_string(&symbol.name),
            is_decompiled: symbol.is_decompiled,
            len: symbol.get_num_insns(),
            source_id: symbol.source_id,
            source_name: clone_string(&symbol.source_name),
            version_id: symbol.version_id,
            version_name: clone_opt_string(&symbol.version_name),
            project_id: symbol.project_id,
            project_name: clone_string(&symbol.project_name),
            project_repo: clone_opt_string(&symbol.project_repo),
            platform: symbol.platform,
        }
    }
}

/// One row of a submatch query result, with the matched symbol's metadata
/// attached.
#[derive(Debug)]
pub struct DBWindow {
    /// Run start in the query symbol's windows.
    pub query_start: i32,
    /// Run start in the matched symbol's windows.
    pub match_start: i32,
    /// Reported run length, in instructions.
    pub len: i64,
    /// The matched symbol.
    pub symbol_id: i64,
    /// The matched symbol's slug.
    pub symbol_slug: String,
    /// The matched symbol's name.
    pub symbol_name: String,
    /// Whether the matched symbol is decompiled.
    pub symbol_is_decompiled: bool,
    /// The matched symbol's length in bytes.
    pub symbol_len: i32,
    /// The matched symbol's index in its object file.
    pub object_symbol_idx: i32,
    /// Version of the matched symbol's source, if any.
    pub version_id: Option<i64>,
    /// Name of that version, if any.
    pub version_name: Option<String>,
    /// The matched symbol's source.
    pub source_id: i64,
    /// That source's name.
    pub source_name: String,
    /// The matched symbol's object row.
    pub object_id: i64,
    /// Path of that object's blob.
    pub object_path: String,
    /// The matched symbol's project.
    pub project_id: i64,
    /// That project's name.
    pub project_name: String,
    /// That project's repository link, if any.
    pub project_repo: Option<String>,
    /// Numeric platform identifier.
    pub platform: i32,
}

/// A page of submatch rows together with the total unpaged count.
#[derive(Debug)]
pub struct DBWindowResults {
    /// The rows of the requested page, in order.
    pub windows: Vec<DBWindow>,
    /// How many rows the query produced before paging.
    pub total_count: i64,
}

/// A submatch result with the symbol metadata folded in.
#[derive(Debug)]
pub struct SubmatchResult {
    /// The matched symbol.
    pub symbol: SymbolMetadata,
    /// Run start in the query symbol's windows.
    pub query_start: i64,
    /// Run start in the matched symbol's windows.
    pub match_start: i64,
    /// Reported run length, in instructions.
    pub len: i64,
}

impl SubmatchResult {
    /// Fold a submatch row into result form, with the symbol length given
    /// in instructions rather than bytes.
    pub fn from_db_window(window: &DBWindow) -> (r: SubmatchResult)
        requires
            crate::platform::spec_platform_id(spec_stored_platform(window.platform))
                == window.platform,
            window.symbol_len >= 0,
        ensures
            r.symbol.slug == window.symbol_slug,
            r.symbol.name == window.symbol_name,
            r.symbol.is_decompiled == window.symbol_is_decompiled,
            r.symbol.len == window.symbol_len as int / crate::platform::spec_insn_length(
                crate::platform::spec_arch(spec_stored_platform(window.platform)),
            ) as int,
            r.symbol.source_id == window.source_id,
            r.symbol.source_name == window.source_name,
            r.symbol.version_id == window.version_id,
            r.symbol.version_name == window.version_name,
            r.symbol.project_id == window.project_id,
            r.symbol.project_name == window.project_name,
            r.symbol.project_repo == window.project_repo,
            r.symbol.platform == window.platform,
            r.query_start == window.query_start,
            r.match_start == window.match_start,
            r.len == window.len,
    {
        let p = match Platform::from_id(window.platform) {
            Some(p) => p,
            None => {
                proof {
                    assert(false);
                }
                Platform::N64
            },
        };
        let num_insns = window.symbol_len / (p.arch().insn_length() as i32);
        SubmatchResult {
            symbol: SymbolMetadata {
                slug: clone_string(&window.symbol_slug),
                name: clone_string(&window.symbol_name),
                is_decompiled: window.symbol_is_decompiled,
                len: num_insns,
                source_id: window.source_id,
                source_name: clone_string(&window.source_name),
                version_id: window.version_id,
                version_name: clone_opt_string(&window.version_name),
                project_id: window.project_id,
                project_name: clone_string(&window.project_name),
                project_repo: clone_opt_string(&window.project_repo),
                platform: window.platform,
            },
            query_start: window.query_start as i64,
            match_start: window.match_start as i64,
            len: window.len,
        }
    }
}

/// The orderings a submatch query may ask for.
#[derive(Debug, Clone, Copy, PartialEq, Eq, Structural)]
pub enum SubmatchResultOrder {
    /// Longest runs first.
    Length,
    /// By run start within the query symbol.
    QueryStart,
}

/// Direction of a requested ordering.
#[derive(Debug, Clone, Copy, PartialEq, Eq, Structural)]
pub enum SortDirection {
    Ascending,
    Descending,
}

/// A windowed submatch query.
#[derive(Debug)]
pub struct QueryWindowsRequest {
    /// The query symbol.
    pub symbol_id: i64,
    /// First query window position taking part.
    pub start: i32,
    /// Last query window position taking part.
    pub end: i32,
    /// The user's effective window width, at least the database width.
    pub window_size: i64,
    /// The database window width the store was built with.
    pub db_window_size: i64,
    /// Page size.
    pub limit: i64,
    /// Zero-based page index.
    pub page: i64,
    /// Requested ordering.
    pub sort_by: SubmatchResultOrder,
    /// Requested direction.
    pub sort_direction: SortDirection,
}

/// Hexadecimal content digest of a byte string, as the digest library
/// renders it.
pub uninterp spec fn blake3_hex_of(data: Seq<u8>) -> Seq<char>;

/// Relies on blake3's `hash` and `Hash::to_hex`: the rendered digest is a
/// function of the bytes alone.
#[verifier::external_body]
fn content_digest(data: &[u8]) -> (r: String)
    ensures
        r@ == blake3_hex_of(data@),
{
    blake3::hash(data).to_hex().to_string()
}

/// The UTF-8 bytes of a string's characters.
pub open spec fn spec_string_bytes(s: Seq<char>) -> Seq<u8> {
    vstd::utf8::encode_utf8(s)
}

/// Whether `sub` occurs in `s` at position `i`.
pub open spec fn spec_occurs_at(s: Seq<u8>, sub: Seq<u8>, i: int) -> bool {
    0 <= i && i + sub.len() <= s.len() && s.subrange(i, i + sub.len()) == sub
}

/// Whether `sub` occurs anywhere in `s`.
pub open spec fn spec_contains_sub(s: Seq<u8>, sub: Seq<u8>) -> bool {
    exists|i: int| spec_occurs_at(s, sub, i)
}

/// Whether `sub` occurs in `s` starting at `at`.
fn occurs_at(s: &[u8], sub: &[u8], at: usize) -> (r: bool)
    requires
        at + sub@.len() <= s@.len(),
    ensures
        r == spec_occurs_at(s@, sub@, at as int),
{
    // bind the slice length so its bound is in scope for the prover
    let _len: usize = s.len();
    let m = sub.len();
    let mut k: usize = 0;
    while k < m
        invariant
            k <= m,
            m == sub@.len(),
            at + m <= s@.len() <= usize::MAX,
            forall|t: int| 0 <= t < k ==> s@[at + t] == sub@[t],
        decreases m - k,
    {
        if s[at + k] != sub[k] {
            proof {
                assert(s@.subrange(at as int, at + m)[k as int] == s@[at + k]);
            }
            return false;
        }
        k = k + 1;
    }
    proof {
        assert(s@.subrange(at as int, at + m) =~= sub@);
    }
    true
}

/// Whether `sub` occurs anywhere in `s`.
pub fn contains_sub(s: &[u8], sub: &[u8]) -> (r: bool)
    ensures
        r == spec_contains_sub(s@, sub@),
{
    let n = s.len();
    let m = sub.len();
    if m > n {
        proof {
            assert forall|i: int| !spec_occurs_at(s@, sub@, i) by {}
        }
        return false;
    }
    if m == 0 {
        proof {
            assert(s@.subrange(0, 0) =~= sub@);
            assert(spec_occurs_at(s@, sub@, 0));
        }
        return true;
    }
    let mut i: usize = 0;
    while i <= n - m
        invariant
            1 <= m <= n,
            n == s@.len(),
            m == sub@.len(),
            i <= n - m + 1,
            forall|t: int| 0 <= t < i ==> !spec_occurs_at(s@, sub@, t),
        decreases n - m - i + 1,
    {
        if occurs_at(s, sub, i) {
            return true;
        }
        i = i + 1;
    }
    proof {
        assert forall|t: int| !spec_occurs_at(s@, sub@, t) by {
            if 0 <= t <= n - m {
                assert(!spec_occurs_at(s@, sub@, t));
            }
        }
    }
    false
}

/// A request to create a project.
#[derive(Debug)]
pub struct CreateProjectRequest {
    /// Unique project name.
    pub name: String,
    /// Repository link, if known.
    pub repo: Option<String>,
}

/// A request to rename a project or change its repository link.
#[derive(Debug)]
pub struct UpdateProjectRequest {
    /// New project name.
    pub name: String,
    /// New repository link, if any.
    pub repo: Option<String>,
}

/// A request to look up symbols by name.
#[derive(Debug)]
pub struct QuerySymbolsByNameRequest {
    /// The name fragment to search for.
    pub name: String,
}

/// A request to look up one symbol by slug.
#[derive(Debug)]
pub struct QuerySymbolsBySlugRequest {
    /// The slug to look up.
    pub slug: String,
}

// ---------------------------------------------------------------------------
// Filters and lookups
// ---------------------------------------------------------------------------

/// The three equality-match channels of the store.
#[derive(Debug, Clone, Copy, PartialEq, Eq, Structural)]
pub enum MatchChannel {
    /// Byte-identical symbols.
    Exact,
    /// Symbols equivalent under relocation-aware normalization.
    Equivalent,
    /// Symbols with the same opcode skeleton.
    Opcode,
}

/// The fingerprint of a symbol row selected by a channel.
pub open spec fn spec_channel_hash(row: DBSymbol, ch: MatchChannel) -> i64 {
    match ch {
        MatchChannel::Exact => row.exact_hash,
        MatchChannel::Equivalent => row.equiv_hash,
        MatchChannel::Opcode => row.opcode_hash,
    }
}

/// Whether a row matches a channel query: same hash on that channel, and
/// not the query row itself.
pub open spec fn spec_channel_match(row: DBSymbol, ch: MatchChannel, hash: i64, exclude: i64) -> bool {
    spec_channel_hash(row, ch) == hash && row.id != exclude
}

/// Filtering one element keeps it exactly when the predicate holds.
proof fn lemma_filter_one<A>(x: A, pred: spec_fn(A) -> bool)
    ensures
        seq![x].filter(pred) == if pred(x) {
            seq![x]
        } else {
            Seq::<A>::empty()
        },
{
    reveal(Seq::filter);
    assert(seq![x].drop_last() =~= Seq::<A>::empty());
    assert(Seq::<A>::empty().filter(pred) =~= Seq::<A>::empty());
}

/// Every element of a filtered sequence occurs in the base sequence.
proof fn lemma_filter_is_subset<A>(s: Seq<A>, pred: spec_fn(A) -> bool, x: A)
    requires
        s.filter(pred).contains(x),
    ensures
        exists|u: int| 0 <= u < s.len() && s[u] == x,
    decreases s.len(),
{
    reveal(Seq::filter);
    if s.len() > 0 {
        if pred(s.last()) && s.filter(pred).last() == x && s.filter(pred).len() > 0 && x
            == s.last() {
            assert(s[s.len() - 1] == x);
        } else {
            if s.drop_last().filter(pred).contains(x) {
                lemma_filter_is_subset(s.drop_last(), pred, x);
                let u = choose|u: int| 0 <= u < s.drop_last().len() && s.drop_last()[u] == x;
                assert(s[u] == x);
            } else {
                assert(s.filter(pred) == if pred(s.last()) {
                    s.drop_last().filter(pred).push(s.last())
                } else {
                    s.drop_last().filter(pred)
                });
                assert(x == s.last());
                assert(s[s.len() - 1] == x);
            }
        }
    }
}

/// Filtering distributes over extending the scanned prefix by one element.
proof fn lemma_filter_prefix_step<A>(s: Seq<A>, i: int, pred: spec_fn(A) -> bool)
    requires
        0 <= i < s.len(),
    ensures
        s.subrange(0, i + 1).filter(pred) == s.subrange(0, i).filter(pred) + (if pred(s[i]) {
            seq![s[i]]
        } else {
            Seq::<A>::empty()
        }),
{
    assert(s.subrange(0, i + 1) =~= s.subrange(0, i) + seq![s[i]]);
    Seq::filter_distributes_over_add(s.subrange(0, i), seq![s[i]], pred);
    lemma_filter_one(s[i], pred);
}

/// The first symbol row with the given id, if any.
pub open spec fn spec_find_symbol(rows: Seq<DBSymbol>, id: i64) -> Option<DBSymbol>
    decreases rows.len(),
{
    if rows.len() == 0 {
        None
    } else if rows[0].id == id {
        Some(rows[0])
    } else {
        spec_find_symbol(rows.drop_first(), id)
    }
}

/// The first window entry for the given symbol, if any.
pub open spec fn spec_find_windows(rows: Seq<SymbolWindows>, id: i64) -> Option<SymbolWindows>
    decreases rows.len(),
{
    if rows.len() == 0 {
        None
    } else if rows[0].symbol_id == id {
        Some(rows[0])
    } else {
        spec_find_windows(rows.drop_first(), id)
    }
}

impl Store {
    /// Well-formedness of the store: ids are below the id counter, symbol
    /// rows carry valid platforms and non-negative lengths, and window
    /// vectors are short enough to index with 32 bits.
    pub open spec fn wf(&self) -> bool {
        &&& forall|k: int|
            0 <= k < self.symbols@.len() ==> crate::platform::spec_platform_id(
                spec_stored_platform((#[trigger] self.symbols@[k]).platform),
            ) == self.symbols@[k].platform && self.symbols@[k].len >= 0
        &&& forall|k: int|
            0 <= k < self.windows@.len() ==> (#[trigger] self.windows@[k]).hashes@.len()
                < 0x7FFF_FFFF
    }

    /// An empty store.
    pub fn new() -> (s: Store)
        ensures
            s.projects@.len() == 0,
            s.versions@.len() == 0,
            s.objects@.len() == 0,
            s.sources@.len() == 0,
            s.symbols@.len() == 0,
            s.windows@.len() == 0,
            s.next_id == 1,
            s.wf(),
    {
        Store {
            projects: Vec::new(),
            versions: Vec::new(),
            objects: Vec::new(),
            sources: Vec::new(),
            symbols: Vec::new(),
            windows: Vec::new(),
            next_id: 1,
        }
    }

    /// Create a project. Fails when a project of the same name exists,
    /// leaving the store unchanged; otherwise appends the row under a fresh
    /// id and returns that id.
    pub fn create_project(&mut self, req: CreateProjectRequest) -> (r: Result<i64, CoddogError>)
        requires
            old(self).next_id < i64::MAX,
        ensures
            final(self).versions == old(self).versions,
            final(self).objects == old(self).objects,
            final(self).sources == old(self).sources,
            final(self).symbols == old(self).symbols,
            final(self).windows == old(self).windows,
            old(self).wf() ==> final(self).wf(),
            r matches Err(e) ==> ({
                &&& e == CoddogError::DuplicateName
                &&& *final(self) == *old(self)
                &&& exists|k: int|
                    0 <= k < old(self).projects@.len() && (#[trigger] old(self).projects@[k]).name@
                        == req.name@
            }),
            r matches Ok(id) ==> ({
                &&& id == old(self).next_id
                &&& final(self).next_id == old(self).next_id + 1
                &&& final(self).projects@.len() == old(self).projects@.len() + 1
                &&& final(self).projects@.last().id == id
                &&& final(self).projects@.last().name == req.name
                &&& final(self).projects@.last().repo == req.repo
                &&& final(self).projects@.drop_last() == old(self).projects@
                &&& forall|k: int|
                    0 <= k < old(self).projects@.len() ==> (#[trigger] old(self).projects@[k]).name@
                        != req.name@
            }),
    {
        let mut k: usize = 0;
        while k < self.projects.len()
            invariant
                k <= self.projects@.len(),
                forall|t: int|
                    0 <= t < k ==> (#[trigger] self.projects@[t]).name@ != req.name@,
            decreases self.projects@.len() - k,
        {
            if self.projects[k].name == req.name {
                return Err(CoddogError::DuplicateName);
            }
            k = k + 1;
        }
        let id = self.next_id;
        self.next_id = self.next_id + 1;
        self.projects.push(Project { id, name: req.name, repo: req.repo });
        Ok(id)
    }

    /// Create a version of a project under a fresh id.
    pub fn create_version(&mut self, name: String, platform: i32, project_id: i64) -> (id: i64)
        requires
            old(self).next_id < i64::MAX,
        ensures
            id == old(self).next_id,
            final(self).next_id == old(self).next_id + 1,
            final(self).versions@ == old(self).versions@.push(
                Version { id, name, platform, project_id },
            ),
            final(self).projects == old(self).projects,
            final(self).objects == old(self).objects,
            final(self).sources == old(self).sources,
            final(self).symbols == old(self).symbols,
            final(self).windows == old(self).windows,
            old(self).wf() ==> final(self).wf(),
    {
        let id = self.next_id;
        self.next_id = self.next_id + 1;
        self.versions.push(Version { id, name, platform, project_id });
        id
    }

    /// Create a content-addressed object row, or return the existing row's
    /// id when one with the same digest is already stored: identical
    /// content is shared, never duplicated.
    pub fn create_object(&mut self, digest: String, local_path: String) -> (id: i64)
        requires
            old(self).next_id < i64::MAX,
        ensures
            final(self).projects == old(self).projects,
            final(self).versions == old(self).versions,
            final(self).sources == old(self).sources,
            final(self).symbols == old(self).symbols,
            final(self).windows == old(self).windows,
            old(self).wf() ==> final(self).wf(),
            (exists|k: int|
                0 <= k < old(self).objects@.len() && (#[trigger] old(self).objects@[k]).digest@
                    == digest@) ==> ({
                &&& *final(self) == *old(self)
                &&& exists|k: int|
                    0 <= k < old(self).objects@.len() && (#[trigger] old(self).objects@[k]).digest@
                        == digest@ && old(self).objects@[k].id == id
            }),
            (forall|k: int|
                0 <= k < old(self).objects@.len() ==> (#[trigger] old(self).objects@[k]).digest@
                    != digest@) ==> ({
                &&& id == old(self).next_id
                &&& final(self).next_id == old(self).next_id + 1
                &&& final(self).objects@.len() == old(self).objects@.len() + 1
                &&& final(self).objects@.drop_last() == old(self).objects@
                &&& final(self).objects@.last().id == id
                &&& final(self).objects@.last().digest == digest
                &&& final(self).objects@.last().local_path == local_path
            }),
    {
        let mut k: usize = 0;
        while k < self.objects.len()
            invariant
                k <= self.objects@.len(),
                forall|t: int|
                    0 <= t < k ==> (#[trigger] self.objects@[t]).digest@ != digest@,
            decreases self.objects@.len() - k,
        {
            if self.objects[k].digest == digest {
                return self.objects[k].id;
            }
            k = k + 1;
        }
        let id = self.next_id;
        self.next_id = self.next_id + 1;
        self.objects.push(StoredObject { id, digest, local_path });
        id
    }

    /// Store a content-addressed object row for these bytes: byte strings
    /// with equal digests share one row, so identical content is kept once.
    pub fn create_object_from_bytes(&mut self, data: &[u8], local_path: String) -> (id: i64)
        requires
            old(self).next_id < i64::MAX,
        ensures
            final(self).projects == old(self).projects,
            final(self).versions == old(self).versions,
            final(self).sources == old(self).sources,
            final(self).symbols == old(self).symbols,
            final(self).windows == old(self).windows,
            old(self).wf() ==> final(self).wf(),
            (exists|k: int|
                0 <= k < old(self).objects@.len() && (#[trigger] old(self).objects@[k]).digest@
                    == blake3_hex_of(data@)) ==> ({
                &&& *final(self) == *old(self)
                &&& exists|k: int|
                    0 <= k < old(self).objects@.len() && (#[trigger] old(self).objects@[k]).digest@
                        == blake3_hex_of(data@) && old(self).objects@[k].id == id
            }),
            (forall|k: int|
                0 <= k < old(self).objects@.len() ==> (#[trigger] old(self).objects@[k]).digest@
                    != blake3_hex_of(data@)) ==> ({
                &&& id == old(self).next_id
                &&& final(self).next_id == old(self).next_id + 1
                &&& final(self).objects@.len() == old(self).objects@.len() + 1
                &&& final(self).objects@.drop_last() == old(self).objects@
                &&& final(self).objects@.last().id == id
                &&& final(self).objects@.last().digest@ == blake3_hex_of(data@)
                &&& final(self).objects@.last().local_path == local_path
            }),
    {
        let digest = content_digest(data);
        self.create_object(digest, local_path)
    }

    /// Create a source row under a fresh id.
    pub fn create_source(
        &mut self,
        name: String,
        source_link: Option<String>,
        object_id: i64,
        version_id: Option<i64>,
        project_id: i64,
    ) -> (id: i64)
        requires
            old(self).next_id < i64::MAX,
        ensures
            id == old(self).next_id,
            final(self).next_id == old(self).next_id + 1,
            final(self).sources@ == old(self).sources@.push(
                Source { id, name, source_link, object_id, version_id, project_id },
            ),
            final(self).projects == old(self).projects,
            final(self).versions == old(self).versions,
            final(self).objects == old(self).objects,
            final(self).symbols == old(self).symbols,
            final(self).windows == old(self).windows,
            old(self).wf() ==> final(self).wf(),
    {
        let id = self.next_id;
        self.next_id = self.next_id + 1;
        self.sources.push(Source { id, name, source_link, object_id, version_id, project_id });
        id
    }

    /// Store a symbol row under a fresh id, together with its window
    /// hashes.
    pub fn add_symbol(&mut self, mut row: DBSymbol, hashes: Vec<u64>) -> (id: i64)
        requires
            old(self).next_id < i64::MAX,
            crate::platform::spec_platform_id(spec_stored_platform(row.platform)) == row.platform,
            row.len >= 0,
            hashes@.len() < 0x7FFF_FFFF,
        ensures
            id == old(self).next_id,
            final(self).next_id == old(self).next_id + 1,
            final(self).symbols@.len() == old(self).symbols@.len() + 1,
            final(self).symbols@.drop_last() == old(self).symbols@,
            final(self).symbols@.last().id == id,
            final(self).symbols@.last().slug == row.slug,
            final(self).symbols@.last().name == row.name,
            final(self).symbols@.last().len == row.len,
            final(self).symbols@.last().exact_hash == row.exact_hash,
            final(self).symbols@.last().equiv_hash == row.equiv_hash,
            final(self).symbols@.last().opcode_hash == row.opcode_hash,
            final(self).symbols@.last().platform == row.platform,
            final(self).windows@ == old(self).windows@.push(
                SymbolWindows { symbol_id: id, hashes },
            ),
            final(self).projects == old(self).projects,
            final(self).versions == old(self).versions,
            final(self).objects == old(self).objects,
            final(self).sources == old(self).sources,
            old(self).wf() ==> final(self).wf(),
    {
        let id = self.next_id;
        self.next_id = self.next_id + 1;
        row.id = id;
        self.symbols.push(row);
        self.windows.push(SymbolWindows { symbol_id: id, hashes });
        id
    }

    /// Look up a symbol by slug. A missing slug is a distinct not-found
    /// error, never conflated with any other failure.
    pub fn query_symbol_by_slug(&self, slug: &String) -> (r: Result<DBSymbol, CoddogError>)
        ensures
            r matches Ok(row) ==> exists|k: int|
                0 <= k < self.symbols@.len() && (#[trigger] self.symbols@[k]) == row && row.slug@
                    == slug@,
            r matches Err(e) ==> e == CoddogError::NotFound && (forall|k: int|
                0 <= k < self.symbols@.len() ==> (#[trigger] self.symbols@[k]).slug@ != slug@),
    {
        let mut k: usize = 0;
        while k < self.symbols.len()
            invariant
                k <= self.symbols@.len(),
                forall|t: int|
                    0 <= t < k ==> (#[trigger] self.symbols@[t]).slug@ != slug@,
            decreases self.symbols@.len() - k,
        {
            if self.symbols[k].slug == *slug {
                return Ok(self.symbols[k].duplicate());
            }
            k = k + 1;
        }
        Err(CoddogError::NotFound)
    }

    /// The rows matching a query symbol on one equality channel: every
    /// stored symbol whose hash on that channel equals `hash`, the query
    /// symbol itself excluded, in storage order.
    pub fn query_by_channel(&self, ch: MatchChannel, hash: i64, exclude: i64) -> (r: Vec<DBSymbol>)
        ensures
            r@ == self.symbols@.filter(
                (|x: DBSymbol| spec_channel_match(x, ch, hash, exclude)),
            ),
    {
        let ghost pred = (|x: DBSymbol| spec_channel_match(x, ch, hash, exclude));
        let mut r: Vec<DBSymbol> = Vec::new();
        proof {
            reveal(Seq::filter);
            assert(self.symbols@.subrange(0, 0).filter(pred) =~= Seq::<DBSymbol>::empty());
        }
        let mut k: usize = 0;
        while k < self.symbols.len()
            invariant
                k <= self.symbols@.len(),
                pred == (|x: DBSymbol| spec_channel_match(x, ch, hash, exclude)),
                r@ == self.symbols@.subrange(0, k as int).filter(pred),
            decreases self.symbols@.len() - k,
        {
            let row = &self.symbols[k];
            let h = match ch {
                MatchChannel::Exact => row.exact_hash,
                MatchChannel::Equivalent => row.equiv_hash,
                MatchChannel::Opcode => row.opcode_hash,
            };
            proof {
                lemma_filter_prefix_step(self.symbols@, k as int, pred);
            }
            if h == hash && row.id != exclude {
                r.push(row.duplicate());
            }
            k = k + 1;
        }
        proof {
            assert(self.symbols@.subrange(0, self.symbols@.len() as int) =~= self.symbols@);
        }
        r
    }

    /// The rows matching a query symbol's exact fingerprint.
    pub fn query_by_exact_hash(&self, hash: i64, exclude: i64) -> (r: Vec<DBSymbol>)
        ensures
            r@ == self.symbols@.filter(
                (|x: DBSymbol| spec_channel_match(x, MatchChannel::Exact, hash, exclude)),
            ),
    {
        self.query_by_channel(MatchChannel::Exact, hash, exclude)
    }

    /// The rows matching a query symbol's equivalence fingerprint.
    pub fn query_by_equiv_hash(&self, hash: i64, exclude: i64) -> (r: Vec<DBSymbol>)
        ensures
            r@ == self.symbols@.filter(
                (|x: DBSymbol| spec_channel_match(x, MatchChannel::Equivalent, hash, exclude)),
            ),
    {
        self.query_by_channel(MatchChannel::Equivalent, hash, exclude)
    }

    /// The rows matching a query symbol's opcode fingerprint.
    pub fn query_by_opcode_hash(&self, hash: i64, exclude: i64) -> (r: Vec<DBSymbol>)
        ensures
            r@ == self.symbols@.filter(
                (|x: DBSymbol| spec_channel_match(x, MatchChannel::Opcode, hash, exclude)),
            ),
    {
        self.query_by_channel(MatchChannel::Opcode, hash, exclude)
    }


    /// Look up a project by id.
    pub fn query_project_by_id(&self, id: i64) -> (r: Result<Project, CoddogError>)
        ensures
            r matches Ok(p) ==> exists|k: int|
                0 <= k < self.projects@.len() && (#[trigger] self.projects@[k]) == p && p.id == id,
            r matches Err(e) ==> e == CoddogError::NotFound && (forall|k: int|
                0 <= k < self.projects@.len() ==> (#[trigger] self.projects@[k]).id != id),
    {
        let mut k: usize = 0;
        while k < self.projects.len()
            invariant
                k <= self.projects@.len(),
                forall|t: int| 0 <= t < k ==> (#[trigger] self.projects@[t]).id != id,
            decreases self.projects@.len() - k,
        {
            if self.projects[k].id == id {
                let p = &self.projects[k];
                return Ok(
                    Project {
                        id: p.id,
                        name: clone_string(&p.name),
                        repo: clone_opt_string(&p.repo),
                    },
                );
            }
            k = k + 1;
        }
        Err(CoddogError::NotFound)
    }

    /// Look up a project by its unique name.
    pub fn query_project_by_name(&self, name: &String) -> (r: Result<Project, CoddogError>)
        ensures
            r matches Ok(p) ==> exists|k: int|
                0 <= k < self.projects@.len() && (#[trigger] self.projects@[k]) == p && p.name@
                    == name@,
            r matches Err(e) ==> e == CoddogError::NotFound && (forall|k: int|
                0 <= k < self.projects@.len() ==> (#[trigger] self.projects@[k]).name@ != name@),
    {
        let mut k: usize = 0;
        while k < self.projects.len()
            invariant
                k <= self.projects@.len(),
                forall|t: int| 0 <= t < k ==> (#[trigger] self.projects@[t]).name@ != name@,
            decreases self.projects@.len() - k,
        {
            if self.projects[k].name == *name {
                let p = &self.projects[k];
                return Ok(
                    Project {
                        id: p.id,
                        name: clone_string(&p.name),
                        repo: clone_opt_string(&p.repo),
                    },
                );
            }
            k = k + 1;
        }
        Err(CoddogError::NotFound)
    }

    /// All project rows, in storage order.
    pub fn query_all_projects(&self) -> (r: Vec<Project>)
        ensures
            r@ == self.projects@,
    {
        let mut r: Vec<Project> = Vec::new();
        let mut k: usize = 0;
        while k < self.projects.len()
            invariant
                k <= self.projects@.len(),
                r@ =~= self.projects@.subrange(0, k as int),
            decreases self.projects@.len() - k,
        {
            let p = &self.projects[k];
            r.push(
                Project { id: p.id, name: clone_string(&p.name), repo: clone_opt_string(&p.repo) },
            );
            k = k + 1;
            proof {
                assert(r@ =~= self.projects@.subrange(0, k as int));
            }
        }
        proof {
            assert(r@ =~= self.projects@);
        }
        r
    }

    /// Rename a project or change its repository link. The first row with
    /// the given id is replaced; a missing id is a distinct not-found
    /// error, leaving the store unchanged.
    pub fn update_project(&mut self, id: i64, req: UpdateProjectRequest) -> (r: Result<
        (),
        CoddogError,
    >)
        ensures
            final(self).versions == old(self).versions,
            final(self).objects == old(self).objects,
            final(self).sources == old(self).sources,
            final(self).symbols == old(self).symbols,
            final(self).windows == old(self).windows,
            final(self).next_id == old(self).next_id,
            old(self).wf() ==> final(self).wf(),
            r matches Err(e) ==> e == CoddogError::NotFound && *final(self) == *old(self) && (
            forall|k: int|
                0 <= k < old(self).projects@.len() ==> (#[trigger] old(self).projects@[k]).id
                    != id),
            r is Ok ==> exists|k: int|
                {
                    &&& 0 <= k < old(self).projects@.len()
                    &&& (#[trigger] old(self).projects@[k]).id == id
                    &&& forall|t: int|
                        0 <= t < k ==> (#[trigger] old(self).projects@[t]).id != id
                    &&& final(self).projects@ == old(self).projects@.update(
                        k,
                        Project { id, name: req.name, repo: req.repo },
                    )
                },
    {
        let mut k: usize = 0;
        let mut found = false;
        while k < self.projects.len() && !found
            invariant
                k <= self.projects@.len(),
                *self == *old(self),
                forall|t: int| 0 <= t < k ==> (#[trigger] self.projects@[t]).id != id,
                found ==> k < self.projects@.len() && self.projects@[k as int].id == id,
            decreases self.projects@.len() - k + (if found {
                0int
            } else {
                1int
            }),
        {
            if self.projects[k].id == id {
                found = true;
            } else {
                k = k + 1;
            }
        }
        if !found {
            return Err(CoddogError::NotFound);
        }
        let ghost pre = self.projects@;
        let _old_row = self.projects.remove(k);
        self.projects.insert(k, Project { id, name: req.name, repo: req.repo });
        proof {
            assert(self.projects@ =~= pre.update(
                k as int,
                Project { id, name: req.name, repo: req.repo },
            ));
        }
        Ok(())
    }

    /// Delete a project and everything it owns: its versions, its sources,
    /// those sources' symbols, and those symbols' window hashes. Shared
    /// objects stay; other projects' rows are untouched.
    pub fn delete_project(&mut self, id: i64)
        ensures
            final(self).next_id == old(self).next_id,
            final(self).objects == old(self).objects,
            final(self).projects@ == old(self).projects@.filter((|p: Project| p.id != id)),
            final(self).versions@ == old(self).versions@.filter(
                (|v: Version| v.project_id != id),
            ),
            final(self).sources@ == old(self).sources@.filter((|s: Source| s.project_id != id)),
            final(self).symbols@ == old(self).symbols@.filter(
                (|s: DBSymbol| s.project_id != id),
            ),
            final(self).windows@ == old(self).windows@.filter(
                (|w: SymbolWindows| !(spec_find_symbol(old(self).symbols@, w.symbol_id) matches Some(
                    s,
                ) && s.project_id == id)),
            ),
            old(self).wf() ==> final(self).wf(),
    {
        let ghost old_syms = self.symbols@;
        let ghost old_windows = self.windows@;
        let ghost wpred = (|w: SymbolWindows| !(spec_find_symbol(old_syms, w.symbol_id) matches Some(
            s,
        ) && s.project_id == id));
        proof {
            reveal(Seq::filter);
            assert(old_windows.subrange(0, 0).filter(wpred) =~= Seq::<SymbolWindows>::empty());
            assert(old_windows.skip(0) =~= old_windows);
        }
        // drop the window rows of the symbols that are about to go, in place
        let mut k: usize = 0;
        let ghost mut gj: int = 0;
        while k < self.windows.len()
            invariant
                0 <= gj <= old_windows.len(),
                old_syms == self.symbols@,
                old_windows == old(self).windows@,
                self.projects == old(self).projects,
                self.versions == old(self).versions,
                self.objects == old(self).objects,
                self.sources == old(self).sources,
                self.symbols == old(self).symbols,
                self.next_id == old(self).next_id,
                wpred == (|w: SymbolWindows| !(spec_find_symbol(old_syms, w.symbol_id) matches Some(
                    s,
                ) && s.project_id == id)),
                k == old_windows.subrange(0, gj).filter(wpred).len(),
                self.windows@ =~= old_windows.subrange(0, gj).filter(wpred) + old_windows.skip(gj),
            decreases old_windows.len() - gj,
        {
            proof {
                assert(old_windows.skip(gj)[0] == old_windows[gj]);
                assert(self.windows@[k as int] == old_windows[gj]);
                lemma_filter_prefix_step(old_windows, gj, wpred);
            }
            let keep = match self.find_symbol_index(self.windows[k].symbol_id) {
                Some(si) => self.symbols[si].project_id != id,
                None => true,
            };
            if keep {
                k = k + 1;
            } else {
                self.windows.remove(k);
            }
            proof {
                gj = gj + 1;
                assert(self.windows@ =~= old_windows.subrange(0, gj).filter(wpred)
                    + old_windows.skip(gj));
            }
        }
        proof {
            assert(gj == old_windows.len()) by {
                assert(self.windows@.len() == k + old_windows.len() - gj);
            }
            assert(old_windows.subrange(0, old_windows.len() as int) =~= old_windows);
            assert(old_windows.skip(old_windows.len() as int) =~= Seq::<SymbolWindows>::empty());
            assert(self.windows@ =~= old_windows.filter(wpred));
        }
        // the owned rows of the other tables, rebuilt without the project
        let mut kept_projects: Vec<Project> = Vec::new();
        proof {
            reveal(Seq::filter);
            assert(self.projects@.subrange(0, 0).filter((|p: Project| p.id != id)) =~= Seq::<
                Project,
            >::empty());
        }
        let mut k: usize = 0;
        while k < self.projects.len()
            invariant
                k <= self.projects@.len(),
                kept_projects@ == self.projects@.subrange(0, k as int).filter(
                    (|p: Project| p.id != id),
                ),
            decreases self.projects@.len() - k,
        {
            proof {
                lemma_filter_prefix_step(self.projects@, k as int, (|p: Project| p.id != id));
            }
            if self.projects[k].id != id {
                let p = &self.projects[k];
                kept_projects.push(
                    Project {
                        id: p.id,
                        name: clone_string(&p.name),
                        repo: clone_opt_string(&p.repo),
                    },
                );
            }
            k = k + 1;
        }
        proof {
            assert(self.projects@.subrange(0, self.projects@.len() as int) =~= self.projects@);
        }
        self.projects = kept_projects;
        let mut kept_versions: Vec<Version> = Vec::new();
        proof {
            reveal(Seq::filter);
            assert(self.versions@.subrange(0, 0).filter((|v: Version| v.project_id != id)) =~= Seq::<
                Version,
            >::empty());
        }
        let mut k: usize = 0;
        while k < self.versions.len()
            invariant
                k <= self.versions@.len(),
                kept_versions@ == self.versions@.subrange(0, k as int).filter(
                    (|v: Version| v.project_id != id),
                ),
            decreases self.versions@.len() - k,
        {
            proof {
                lemma_filter_prefix_step(
                    self.versions@,
                    k as int,
                    (|v: Version| v.project_id != id),
                );
            }
            if self.versions[k].project_id != id {
                let v = &self.versions[k];
                kept_versions.push(
                    Version {
                        id: v.id,
                        name: clone_string(&v.name),
                        platform: v.platform,
                        project_id: v.project_id,
                    },
                );
            }
            k = k + 1;
        }
        proof {
            assert(self.versions@.subrange(0, self.versions@.len() as int) =~= self.versions@);
        }
        self.versions = kept_versions;
        let mut kept_sources: Vec<Source> = Vec::new();
        proof {
            reveal(Seq::filter);
            assert(self.sources@.subrange(0, 0).filter((|s: Source| s.project_id != id)) =~= Seq::<
                Source,
            >::empty());
        }
        let mut k: usize = 0;
        while k < self.sources.len()
            invariant
                k <= self.sources@.len(),
                kept_sources@ == self.sources@.subrange(0, k as int).filter(
                    (|s: Source| s.project_id != id),
                ),
            decreases self.sources@.len() - k,
        {
            proof {
                lemma_filter_prefix_step(self.sources@, k as int, (|s: Source| s.project_id != id));
            }
            if self.sources[k].project_id != id {
                let v = &self.sources[k];
                kept_sources.push(
                    Source {
                        id: v.id,
                        name: clone_string(&v.name),
                        source_link: clone_opt_string(&v.source_link),
                        object_id: v.object_id,
                        version_id: v.version_id,
                        project_id: v.project_id,
                    },
                );
            }
            k = k + 1;
        }
        proof {
            assert(self.sources@.subrange(0, self.sources@.len() as int) =~= self.sources@);
        }
        self.sources = kept_sources;
        let mut kept_symbols: Vec<DBSymbol> = Vec::new();
        proof {
            reveal(Seq::filter);
            assert(self.symbols@.subrange(0, 0).filter((|s: DBSymbol| s.project_id != id)) =~= Seq::<
                DBSymbol,
            >::empty());
        }
        let mut k: usize = 0;
        while k < self.symbols.len()
            invariant
                k <= self.symbols@.len(),
                kept_symbols@ == self.symbols@.subrange(0, k as int).filter(
                    (|s: DBSymbol| s.project_id != id),
                ),
            decreases self.symbols@.len() - k,
        {
            proof {
                lemma_filter_prefix_step(
                    self.symbols@,
                    k as int,
                    (|s: DBSymbol| s.project_id != id),
                );
            }
            if self.symbols[k].project_id != id {
                kept_symbols.push(self.symbols[k].duplicate());
            }
            k = k + 1;
        }
        proof {
            assert(self.symbols@.subrange(0, self.symbols@.len() as int) =~= self.symbols@);
        }
        self.symbols = kept_symbols;
        proof {
            if old(self).wf() {
                assert forall|t: int|
                    0 <= t < self.symbols@.len() implies crate::platform::spec_platform_id(
                    spec_stored_platform((#[trigger] self.symbols@[t]).platform),
                ) == self.symbols@[t].platform && self.symbols@[t].len >= 0 by {
                    Seq::lemma_filter_pred(
                        old(self).symbols@,
                        (|s: DBSymbol| s.project_id != id),
                        t,
                    );
                    let kept = old(self).symbols@.filter((|s: DBSymbol| s.project_id != id));
                    assert(exists|u: int|
                        0 <= u < old(self).symbols@.len() && old(self).symbols@[u]
                            == kept[t]) by {
                        assert(kept.to_multiset().count(kept[t]) > 0) by {
                            broadcast use vstd::seq_lib::group_to_multiset_ensures;

                            assert(kept.contains(kept[t]));
                        }
                        broadcast use vstd::seq_lib::group_to_multiset_ensures;

                        lemma_filter_is_subset(old(self).symbols@, (|s: DBSymbol| s.project_id
                            != id), kept[t]);
                    }
                }
                assert forall|t: int|
                    0 <= t < self.windows@.len() implies (#[trigger] self.windows@[t]).hashes@.len()
                    < 0x7FFF_FFFF by {
                    assert(exists|u: int|
                        0 <= u < old(self).windows@.len() && old(self).windows@[u]
                            == self.windows@[t]) by {
                        lemma_filter_is_subset(old(self).windows@, wpred, self.windows@[t]);
                        assert(self.windows@.contains(self.windows@[t]));
                    }
                }
            }
        }
    }

    /// Total number of stored projects.
    pub fn count_projects(&self) -> (r: usize)
        ensures
            r == self.projects@.len(),
    {
        self.projects.len()
    }

    /// Total number of stored versions.
    pub fn count_versions(&self) -> (r: usize)
        ensures
            r == self.versions@.len(),
    {
        self.versions.len()
    }

    /// Total number of stored sources.
    pub fn count_sources(&self) -> (r: usize)
        ensures
            r == self.sources@.len(),
    {
        self.sources.len()
    }

    /// Total number of stored symbols.
    pub fn count_symbols(&self) -> (r: usize)
        ensures
            r == self.symbols@.len(),
    {
        self.symbols.len()
    }

    /// The rows whose name contains the request's name fragment,
    /// case-insensitively, in storage order.
    pub fn query_symbols_by_name(&self, req: &QuerySymbolsByNameRequest) -> (r: Vec<DBSymbol>)
        ensures
            r@ == self.symbols@.filter(
                (|x: DBSymbol| spec_contains_sub(
                    spec_ascii_lower(spec_string_bytes(x.name@)),
                    spec_ascii_lower(spec_string_bytes(req.name@)),
                )),
            ),
    {
        let ghost pred = (|x: DBSymbol| spec_contains_sub(
            spec_ascii_lower(spec_string_bytes(x.name@)),
            spec_ascii_lower(spec_string_bytes(req.name@)),
        ));
        let needle = crate::platform::lower_bytes(req.name.as_str());
        let mut r: Vec<DBSymbol> = Vec::new();
        proof {
            reveal(Seq::filter);
            assert(self.symbols@.subrange(0, 0).filter(pred) =~= Seq::<DBSymbol>::empty());
        }
        let mut k: usize = 0;
        while k < self.symbols.len()
            invariant
                k <= self.symbols@.len(),
                needle@ == spec_ascii_lower(spec_string_bytes(req.name@)),
                pred == (|x: DBSymbol| spec_contains_sub(
                    spec_ascii_lower(spec_string_bytes(x.name@)),
                    spec_ascii_lower(spec_string_bytes(req.name@)),
                )),
                r@ == self.symbols@.subrange(0, k as int).filter(pred),
            decreases self.symbols@.len() - k,
        {
            let row = &self.symbols[k];
            let hay = crate::platform::lower_bytes(row.name.as_str());
            proof {
                lemma_filter_prefix_step(self.symbols@, k as int, pred);
            }
            if contains_sub(hay.as_slice(), needle.as_slice()) {
                r.push(row.duplicate());
            }
            k = k + 1;
        }
        proof {
            assert(self.symbols@.subrange(0, self.symbols@.len() as int) =~= self.symbols@);
        }
        r
    }
}

// ---------------------------------------------------------------------------
// The windowed submatch query
// ---------------------------------------------------------------------------

/// Total ordering of submatch rows: longest runs first, then by project,
/// source, symbol, query start and match start ascending.
pub open spec fn spec_win_le(a: DBWindow, b: DBWindow) -> bool {
    if a.len != b.len {
        a.len > b.len
    } else if a.project_id != b.project_id {
        a.project_id < b.project_id
    } else if a.source_id != b.source_id {
        a.source_id < b.source_id
    } else if a.symbol_id != b.symbol_id {
        a.symbol_id < b.symbol_id
    } else if a.query_start != b.query_start {
        a.query_start < b.query_start
    } else {
        a.match_start <= b.match_start
    }
}

/// Whether a row sequence is sorted under [`spec_win_le`].
pub open spec fn spec_rows_sorted(s: Seq<DBWindow>) -> bool {
    forall|i: int, j: int| 0 <= i < j < s.len() ==> spec_win_le(s[i], s[j])
}

/// Compare two submatch rows under the query ordering.
fn win_le(a: &DBWindow, b: &DBWindow) -> (r: bool)
    ensures
        r == spec_win_le(*a, *b),
{
    if a.len != b.len {
        a.len > b.len
    } else if a.project_id != b.project_id {
        a.project_id < b.project_id
    } else if a.source_id != b.source_id {
        a.source_id < b.source_id
    } else if a.symbol_id != b.symbol_id {
        a.symbol_id < b.symbol_id
    } else if a.query_start != b.query_start {
        a.query_start < b.query_start
    } else {
        a.match_start <= b.match_start
    }
}

/// The submatch row of one run against one stored symbol: positions from
/// the run, the length reported in instructions, and the symbol's metadata
/// attached.
pub open spec fn spec_row_of_run(sym: DBSymbol, run: (int, int, int), dbw: int) -> DBWindow {
    DBWindow {
        query_start: run.0 as i32,
        match_start: run.1 as i32,
        len: (run.2 + dbw - 1) as i64,
        symbol_id: sym.id,
        symbol_slug: sym.slug,
        symbol_name: sym.name,
        symbol_is_decompiled: sym.is_decompiled,
        symbol_len: sym.len,
        object_symbol_idx: sym.object_symbol_idx,
        version_id: sym.version_id,
        version_name: sym.version_name,
        source_id: sym.source_id,
        source_name: sym.source_name,
        object_id: sym.object_id,
        object_path: sym.object_path,
        project_id: sym.project_id,
        project_name: sym.project_name,
        project_repo: sym.project_repo,
        platform: sym.platform,
    }
}

/// The submatch rows of all runs against one stored symbol.
pub open spec fn spec_rows_of_runs(sym: DBSymbol, runs: Seq<(int, int, int)>, dbw: int) -> Seq<
    DBWindow,
> {
    runs.map_values(|r: (int, int, int)| spec_row_of_run(sym, r, dbw))
}

/// Every submatch row of the first `n` window entries: for each stored
/// symbol other than the query symbol, the maximal diagonal runs of its
/// windows against the query windows, as metadata-bearing rows.
pub open spec fn spec_all_rows(
    windows: Seq<SymbolWindows>,
    symbols: Seq<DBSymbol>,
    q: Seq<u64>,
    qid: i64,
    start: int,
    end: int,
    min_len: int,
    dbw: int,
    n: int,
) -> Seq<DBWindow>
    decreases n,
{
    if n <= 0 {
        Seq::empty()
    } else {
        let pre = spec_all_rows(windows, symbols, q, qid, start, end, min_len, dbw, n - 1);
        let e = windows[n - 1];
        if e.symbol_id == qid {
            pre
        } else {
            match spec_find_symbol(symbols, e.symbol_id) {
                Some(sym) => pre + spec_rows_of_runs(
                    sym,
                    spec_pair_runs(q, e.hashes@, start, end, min_len),
                    dbw,
                ),
                None => pre,
            }
        }
    }
}

impl DBWindow {
    /// Copy a submatch row.
    pub fn duplicate(&self) -> (r: DBWindow)
        ensures
            r == *self,
    {
        DBWindow {
            query_start: self.query_start,
            match_start: self.match_start,
            len: self.len,
            symbol_id: self.symbol_id,
            symbol_slug: clone_string(&self.symbol_slug),
            symbol_name: clone_string(&self.symbol_name),
            symbol_is_decompiled: self.symbol_is_decompiled,
            symbol_len: self.symbol_len,
            object_symbol_idx: self.object_symbol_idx,
            version_id: self.version_id,
            version_name: clone_opt_string(&self.version_name),
            source_id: self.source_id,
            source_name: clone_string(&self.source_name),
            object_id: self.object_id,
            object_path: clone_string(&self.object_path),
            project_id: self.project_id,
            project_name: clone_string(&self.project_name),
            project_repo: clone_opt_string(&self.project_repo),
            platform: self.platform,
        }
    }
}

/// Sort submatch rows into the query ordering.
fn sort_rows(rows: Vec<DBWindow>) -> (r: Vec<DBWindow>)
    ensures
        r@.len() == rows@.len(),
        r@.to_multiset() == rows@.to_multiset(),
        spec_rows_sorted(r@),
{
    broadcast use vstd::seq_lib::group_to_multiset_ensures;

    let mut rest = rows;
    let ghost orig = rest@;
    let mut out: Vec<DBWindow> = Vec::new();
    while rest.len() > 0
        invariant
            out@.to_multiset().add(rest@.to_multiset()) == orig.to_multiset(),
            out@.len() + rest@.len() == orig.len(),
            spec_rows_sorted(out@),
            forall|i: int, j: int|
                0 <= i < out@.len() && 0 <= j < rest@.len() ==> spec_win_le(out@[i], rest@[j]),
        decreases rest@.len(),
    {
        let mut mi: usize = 0;
        let mut k: usize = 1;
        while k < rest.len()
            invariant
                mi < k <= rest@.len() || (k <= rest@.len() && mi == 0),
                mi < rest@.len(),
                forall|t: int| 0 <= t < k ==> spec_win_le(rest@[mi as int], rest@[t]),
            decreases rest@.len() - k,
        {
            if win_le(&rest[k], &rest[mi]) {
                proof {
                    assert forall|t: int| 0 <= t < k + 1 implies spec_win_le(
                        rest@[k as int],
                        rest@[t],
                    ) by {
                        assert(spec_win_le(rest@[mi as int], rest@[t]) || t == k);
                    }
                }
                mi = k;
            } else {
                proof {
                    assert(spec_win_le(rest@[mi as int], rest@[k as int]));
                }
            }
            k = k + 1;
        }
        let ghost pre_rest = rest@;
        let ghost pre_out = out@;
        let x = rest.remove(mi);
        out.push(x);
        proof {
            broadcast use vstd::multiset::group_multiset_axioms;
            broadcast use vstd::seq_lib::group_to_multiset_ensures;

            assert(rest@ == pre_rest.remove(mi as int));
            assert(pre_rest.contains(pre_rest[mi as int]));
            assert(pre_rest.remove(mi as int).to_multiset() == pre_rest.to_multiset().remove(
                pre_rest[mi as int],
            ));
            assert(out@ == pre_out.push(pre_rest[mi as int]));
            assert(pre_out.push(pre_rest[mi as int]).to_multiset() == pre_out.to_multiset().insert(
                pre_rest[mi as int],
            ));
            assert(pre_rest.to_multiset().count(pre_rest[mi as int]) > 0);
            assert(out@.to_multiset().add(rest@.to_multiset()) =~= orig.to_multiset());
            assert forall|i: int, j: int|
                0 <= i < out@.len() && 0 <= j < rest@.len() implies spec_win_le(
                out@[i],
                rest@[j],
            ) by {
                if j < mi {
                    assert(rest@[j] == pre_rest[j]);
                } else {
                    assert(rest@[j] == pre_rest[j + 1]);
                }
            }
            assert(spec_rows_sorted(out@));
        }
    }
    out
}

impl Store {
    /// Look up the window hashes of a symbol. Returns the index of the
    /// entry within the windows table.
    fn find_windows_index(&self, id: i64) -> (r: Option<usize>)
        ensures
            r matches Some(k) ==> k < self.windows@.len() && self.windows@[k as int].symbol_id
                == id && spec_find_windows(self.windows@, id) == Some(self.windows@[k as int]),
            r is None ==> spec_find_windows(self.windows@, id) is None,
    {
        proof {
            assert(self.windows@.skip(0) =~= self.windows@);
        }
        let mut k: usize = 0;
        while k < self.windows.len()
            invariant
                k <= self.windows@.len(),
                spec_find_windows(self.windows@, id) == spec_find_windows(
                    self.windows@.skip(k as int),
                    id,
                ),
            decreases self.windows@.len() - k,
        {
            if self.windows[k].symbol_id == id {
                proof {
                    assert(self.windows@.skip(k as int)[0] == self.windows@[k as int]);
                }
                return Some(k);
            }
            proof {
                assert(self.windows@.skip(k as int).drop_first() =~= self.windows@.skip(k + 1));
            }
            k = k + 1;
        }
        proof {
            assert(self.windows@.skip(self.windows@.len() as int).len() == 0);
        }
        None
    }

    /// Look up a symbol row by id.
    fn find_symbol_index(&self, id: i64) -> (r: Option<usize>)
        ensures
            r matches Some(k) ==> k < self.symbols@.len() && self.symbols@[k as int].id == id
                && spec_find_symbol(self.symbols@, id) == Some(self.symbols@[k as int]),
            r is None ==> spec_find_symbol(self.symbols@, id) is None,
    {
        proof {
            assert(self.symbols@.skip(0) =~= self.symbols@);
        }
        let mut k: usize = 0;
        while k < self.symbols.len()
            invariant
                k <= self.symbols@.len(),
                spec_find_symbol(self.symbols@, id) == spec_find_symbol(
                    self.symbols@.skip(k as int),
                    id,
                ),
            decreases self.symbols@.len() - k,
        {
            if self.symbols[k].id == id {
                proof {
                    assert(self.symbols@.skip(k as int)[0] == self.symbols@[k as int]);
                }
                return Some(k);
            }
            proof {
                assert(self.symbols@.skip(k as int).drop_first() =~= self.symbols@.skip(k + 1));
            }
            k = k + 1;
        }
        proof {
            assert(self.symbols@.skip(self.symbols@.len() as int).len() == 0);
        }
        None
    }

    /// The windowed submatch query.
    ///
    /// For the query symbol's windows and every other stored symbol, the
    /// maximal diagonal runs of at least `window_size - db_window_size + 1`
    /// database windows are collected — so that every reported stretch
    /// spans at least `window_size` instructions — ordered by length
    /// descending with ties broken by project, source, symbol and
    /// positions, and the requested page is returned together with the
    /// total row count.
    ///
    /// A request whose effective window width undercuts the database width
    /// is rejected; a query symbol without stored windows is a distinct
    /// not-found error.
    pub fn query_windows_by_symbol_id(&self, request: &QueryWindowsRequest) -> (r: Result<
        DBWindowResults,
        CoddogError,
    >)
        requires
            self.wf(),
            0 <= request.start <= request.end,
            1 <= request.db_window_size <= 0x7FFF_FFFF,
            request.window_size <= 0x7FFF_FFFF,
            0 <= request.page,
            0 <= request.limit <= 0x7FFF_FFFF,
            request.page * request.limit <= 0x7FFF_FFFF,
        ensures
            request.window_size < request.db_window_size ==> (r matches Err(e) && e
                == CoddogError::WindowTooSmall),
            r matches Err(e) ==> (e == CoddogError::WindowTooSmall && request.window_size
                < request.db_window_size) || (e == CoddogError::NotFound && request.window_size
                >= request.db_window_size && spec_find_windows(
                self.windows@,
                request.symbol_id,
            ) is None),
            r matches Ok(res) ==> (spec_find_windows(self.windows@, request.symbol_id) matches Some(
                qe,
            ) && {
                let all = spec_all_rows(
                    self.windows@,
                    self.symbols@,
                    qe.hashes@,
                    request.symbol_id,
                    request.start as int,
                    request.end as int,
                    request.window_size - request.db_window_size + 1,
                    request.db_window_size as int,
                    self.windows@.len() as int,
                );
                &&& res.total_count == all.len() as i64
                &&& exists|sorted: Seq<DBWindow>|
                    {
                        &&& #[trigger] sorted.to_multiset() == all.to_multiset()
                        &&& spec_rows_sorted(sorted)
                        &&& res.windows@ == sorted.subrange(
                            if request.page * request.limit <= sorted.len() {
                                request.page * request.limit
                            } else {
                                sorted.len() as int
                            },
                            if request.page * request.limit + request.limit <= sorted.len() {
                                request.page * request.limit + request.limit
                            } else {
                                sorted.len() as int
                            },
                        )
                    }
            }),
    {
        if request.window_size < request.db_window_size {
            return Err(CoddogError::WindowTooSmall);
        }
        let qi = match self.find_windows_index(request.symbol_id) {
            Some(qi) => qi,
            None => {
                return Err(CoddogError::NotFound);
            },
        };
        let min_len = (request.window_size - request.db_window_size + 1) as usize;
        let start = request.start as usize;
        let end = request.end as usize;
        let dbw = request.db_window_size;
        let ghost qh = self.windows@[qi as int].hashes@;
        let mut all: Vec<DBWindow> = Vec::new();
        let mut k: usize = 0;
        while k < self.windows.len()
            invariant
                self.wf(),
                k <= self.windows@.len(),
                qi < self.windows@.len(),
                self.windows@[qi as int].symbol_id == request.symbol_id,
                qh == self.windows@[qi as int].hashes@,
                0 <= request.start <= request.end,
                1 <= dbw <= 0x7FFF_FFFF,
                dbw == request.db_window_size,
                start == request.start as int,
                end == request.end as int,
                min_len == request.window_size - request.db_window_size + 1,
                all@ == spec_all_rows(
                    self.windows@,
                    self.symbols@,
                    qh,
                    request.symbol_id,
                    start as int,
                    end as int,
                    min_len as int,
                    dbw as int,
                    k as int,
                ),
            decreases self.windows@.len() - k,
        {
            let ghost pre = all@;
            if self.windows[k].symbol_id != request.symbol_id {
                match self.find_symbol_index(self.windows[k].symbol_id) {
                    Some(si) => {
                        let runs = pair_runs(
                            &self.windows[qi].hashes,
                            &self.windows[k].hashes,
                            start,
                            end,
                            min_len,
                        );
                        let ghost spec_runs = spec_pair_runs(
                            qh,
                            self.windows@[k as int].hashes@,
                            start as int,
                            end as int,
                            min_len as int,
                        );
                        proof {
                            crate::submatch::lemma_pair_runs_bounds(
                                qh,
                                self.windows@[k as int].hashes@,
                                start as int,
                                end as int,
                                min_len as int,
                            );
                        }
                        let sym = &self.symbols[si];
                        proof {
                            assert(spec_runs.subrange(0, 0) =~= Seq::<(int, int, int)>::empty());
                            assert(spec_rows_of_runs(
                                self.symbols@[si as int],
                                spec_runs.subrange(0, 0),
                                dbw as int,
                            ) =~= Seq::<DBWindow>::empty());
                            assert(all@ =~= all@ + spec_rows_of_runs(
                                self.symbols@[si as int],
                                spec_runs.subrange(0, 0),
                                dbw as int,
                            ));
                        }
                        let mut t: usize = 0;
                        while t < runs.len()
                            invariant
                                self.wf(),
                                si < self.symbols@.len(),
                                *sym == self.symbols@[si as int],
                                t <= runs@.len(),
                                1 <= dbw <= 0x7FFF_FFFF,
                                runs@.len() == spec_runs.len(),
                                forall|u: int|
                                    0 <= u < runs@.len() ==> (#[trigger] runs@[u]).start_qpos
                                        == spec_runs[u].0 && runs@[u].start_spos == spec_runs[u].1
                                        && runs@[u].len_windows == spec_runs[u].2,
                                forall|u: int|
                                    0 <= u < runs@.len() ==> (#[trigger] runs@[u]).start_qpos
                                        <= 0x7FFF_FFFF && runs@[u].start_spos < 0x7FFF_FFFF
                                        && runs@[u].len_windows < 0x7FFF_FFFF,
                                all@ == pre + spec_rows_of_runs(
                                    self.symbols@[si as int],
                                    spec_runs.subrange(0, t as int),
                                    dbw as int,
                                ),
                            decreases runs@.len() - t,
                        {
                            let run = runs[t];
                            all.push(
                                DBWindow {
                                    query_start: run.start_qpos as i32,
                                    match_start: run.start_spos as i32,
                                    len: run.len_windows as i64 + dbw - 1,
                                    symbol_id: sym.id,
                                    symbol_slug: clone_string(&sym.slug),
                                    symbol_name: clone_string(&sym.name),
                                    symbol_is_decompiled: sym.is_decompiled,
                                    symbol_len: sym.len,
                                    object_symbol_idx: sym.object_symbol_idx,
                                    version_id: sym.version_id,
                                    version_name: clone_opt_string(&sym.version_name),
                                    source_id: sym.source_id,
                                    source_name: clone_string(&sym.source_name),
                                    object_id: sym.object_id,
                                    object_path: clone_string(&sym.object_path),
                                    project_id: sym.project_id,
                                    project_name: clone_string(&sym.project_name),
                                    project_repo: clone_opt_string(&sym.project_repo),
                                    platform: sym.platform,
                                },
                            );
                            t = t + 1;
                            proof {
                                assert(all@.last() == spec_row_of_run(
                                    self.symbols@[si as int],
                                    spec_runs[t - 1],
                                    dbw as int,
                                ));
                                assert(spec_runs.subrange(0, t as int) =~= spec_runs.subrange(
                                    0,
                                    t - 1,
                                ).push(spec_runs[t - 1]));
                                assert(spec_rows_of_runs(
                                    self.symbols@[si as int],
                                    spec_runs.subrange(0, t as int),
                                    dbw as int,
                                ) =~= spec_rows_of_runs(
                                    self.symbols@[si as int],
                                    spec_runs.subrange(0, t - 1),
                                    dbw as int,
                                ).push(
                                    spec_row_of_run(
                                        self.symbols@[si as int],
                                        spec_runs[t - 1],
                                        dbw as int,
                                    ),
                                ));
                                assert(all@ =~= pre + spec_rows_of_runs(
                                    self.symbols@[si as int],
                                    spec_runs.subrange(0, t as int),
                                    dbw as int,
                                ));
                            }
                        }
                        proof {
                            assert(spec_runs.subrange(0, spec_runs.len() as int) =~= spec_runs);
                            assert(spec_find_symbol(self.symbols@, self.windows@[k as int].symbol_id)
                                == Some(self.symbols@[si as int]));
                        }
                    },
                    None => {
                    },
                }
            }
            k = k + 1;
        }
        proof {
            assert(all@ == spec_all_rows(
                self.windows@,
                self.symbols@,
                qh,
                request.symbol_id,
                start as int,
                end as int,
                min_len as int,
                dbw as int,
                self.windows@.len() as int,
            ));
        }
        let total: usize = all.len();
        let sorted = sort_rows(all);
        let ghost sorted_view = sorted@;
        let offset_i64 = request.page * request.limit;
        let offset = offset_i64 as usize;
        let from = if offset <= sorted.len() {
            offset
        } else {
            sorted.len()
        };
        let to_unclamped = from + (request.limit as usize);
        let to = if to_unclamped <= sorted.len() {
            to_unclamped
        } else {
            sorted.len()
        };
        let mut page: Vec<DBWindow> = Vec::new();
        let mut k2: usize = from;
        while k2 < to
            invariant
                from <= k2 <= to <= sorted@.len(),
                sorted@ == sorted_view,
                page@ =~= sorted_view.subrange(from as int, k2 as int),
            decreases to - k2,
        {
            page.push(sorted[k2].duplicate());
            k2 = k2 + 1;
            proof {
                assert(page@ =~= sorted_view.subrange(from as int, k2 as int));
            }
        }
        proof {
            assert(page@ =~= sorted_view.subrange(from as int, to as int));
        }
        Ok(DBWindowResults { windows: page, total_count: total as i64 })
    }
}

} // verus!
