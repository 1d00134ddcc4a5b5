//! Deterministic 64-bit fingerprinting of token streams, and the rolling
//! window hasher that turns an opcode vector into one hash per window
//! position.
//!
//! Callers treat the hashes as opaque integers: the only property the rest of
//! the crate relies on is that the hash is a pure function of the token
//! stream, so equal streams always produce equal hashes.

use vstd::prelude::*;

verus! {

/// Initial state of the token hash (the FNV-1a 64-bit offset basis).
pub const HASH_SEED: u64 = 0xcbf2_9ce4_8422_2325;

/// Multiplier of the token hash (the FNV-1a 64-bit prime).
pub const HASH_PRIME: u64 = 0x0000_0100_0000_01b3;

/// One mixing step: absorb token `t` into state `h`.
pub open spec fn spec_mix(h: u64, t: u64) -> u64 {
    vstd::wrapping::u64_specs::wrapping_mul(h ^ t, HASH_PRIME)
}

/// Hash of a whole token stream: the seed folded through `spec_mix`,
/// one token at a time, left to right.
pub open spec fn spec_hash_tokens(s: Seq<u64>) -> u64
    decreases s.len(),
{
    if s.len() == 0 {
        HASH_SEED
    } else {
        spec_mix(spec_hash_tokens(s.drop_last()), s.last())
    }
}

/// A byte stream is hashed as the stream of its bytes widened to tokens.
pub open spec fn spec_hash_bytes(s: Seq<u8>) -> u64 {
    spec_hash_tokens(s.map_values(|b: u8| b as u64))
}

/// An opcode stream is hashed as the stream of its opcodes widened to tokens.
pub open spec fn spec_hash_opcodes(s: Seq<u16>) -> u64 {
    spec_hash_tokens(s.map_values(|x: u16| x as u64))
}

/// Extending a stream by one token mixes that token into the stream's hash.
proof fn lemma_hash_tokens_push(s: Seq<u64>, t: u64)
    ensures
        spec_hash_tokens(s.push(t)) == spec_mix(spec_hash_tokens(s), t),
{
    assert(s.push(t).drop_last() =~= s);
}

/// Absorb one token into a running hash state.
fn mix(h: u64, t: u64) -> (r: u64)
    ensures
        r == spec_mix(h, t),
{
    (h ^ t).wrapping_mul(HASH_PRIME)
}

/// Hash a stream of 64-bit tokens.
pub fn hash_tokens(s: &Vec<u64>) -> (r: u64)
    ensures
        r == spec_hash_tokens(s@),
{
    let mut h: u64 = HASH_SEED;
    let mut i: usize = 0;
    while i < s.len()
        invariant
            i <= s.len(),
            h == spec_hash_tokens(s@.subrange(0, i as int)),
        decreases s.len() - i,
    {
        proof {
            assert(s@.subrange(0, i + 1).drop_last() =~= s@.subrange(0, i as int));
        }
        h = mix(h, s[i]);
        i = i + 1;
    }
    proof {
        assert(s@.subrange(0, s@.len() as int) =~= s@);
    }
    h
}

/// Hash the byte range `[from, to)` of `s`.
pub fn hash_byte_range(s: &[u8], from: usize, to: usize) -> (r: u64)
    requires
        from <= to <= s@.len(),
    ensures
        r == spec_hash_bytes(s@.subrange(from as int, to as int)),
{
    let ghost whole = s@.subrange(from as int, to as int).map_values(|b: u8| b as u64);
    let mut h: u64 = HASH_SEED;
    let mut i: usize = from;
    while i < to
        invariant
            from <= i <= to <= s@.len(),
            whole == s@.subrange(from as int, to as int).map_values(|b: u8| b as u64),
            h == spec_hash_tokens(whole.subrange(0, i - from)),
        decreases to - i,
    {
        proof {
            assert(whole.subrange(0, i - from + 1).drop_last() =~= whole.subrange(0, i - from));
            assert(whole.subrange(0, i - from + 1).last() == s@[i as int] as u64);
        }
        h = mix(h, s[i] as u64);
        i = i + 1;
    }
    proof {
        assert(whole.subrange(0, to - from) =~= whole);
    }
    h
}

/// Hash the opcode range `[from, to)` of `s`.
pub fn hash_opcode_range(s: &[u16], from: usize, to: usize) -> (r: u64)
    requires
        from <= to <= s@.len(),
    ensures
        r == spec_hash_opcodes(s@.subrange(from as int, to as int)),
{
    let ghost whole = s@.subrange(from as int, to as int).map_values(|x: u16| x as u64);
    let mut h: u64 = HASH_SEED;
    let mut i: usize = from;
    while i < to
        invariant
            from <= i <= to <= s@.len(),
            whole == s@.subrange(from as int, to as int).map_values(|x: u16| x as u64),
            h == spec_hash_tokens(whole.subrange(0, i - from)),
        decreases to - i,
    {
        proof {
            assert(whole.subrange(0, i - from + 1).drop_last() =~= whole.subrange(0, i - from));
            assert(whole.subrange(0, i - from + 1).last() == s@[i as int] as u64);
        }
        h = mix(h, s[i] as u64);
        i = i + 1;
    }
    proof {
        assert(whole.subrange(0, to - from) =~= whole);
    }
    h
}

/// A byte vector, zero-padded on the right up to length `w` when it is
/// shorter than one window.
pub open spec fn spec_padded_bytes(s: Seq<u8>, w: nat) -> Seq<u8> {
    if s.len() >= w {
        s
    } else {
        s + Seq::new((w - s.len()) as nat, |i: int| 0u8)
    }
}

/// The rolling window hashes of a byte vector: one hash per start position
/// of a window of `w` bytes over the padded vector.
pub open spec fn spec_byte_window_hashes(s: Seq<u8>, w: nat) -> Seq<u64>
    recommends
        w >= 1,
{
    Seq::new(
        (spec_padded_bytes(s, w).len() - w + 1) as nat,
        |i: int| spec_hash_bytes(spec_padded_bytes(s, w).subrange(i, i + w)),
    )
}

/// Rolling window hashes of `data` over bytes, with window width
/// `window_size`; a vector shorter than one window is zero-padded and
/// yields exactly one hash.
pub fn get_byte_hashes(data: &Vec<u8>, window_size: usize) -> (r: Vec<u64>)
    requires
        1 <= window_size,
        data@.len() + window_size < usize::MAX,
    ensures
        r@ == spec_byte_window_hashes(data@, window_size as nat),
{
    let ghost orig = data@;
    let mut padded: Vec<u8> = Vec::new();
    let mut i: usize = 0;
    while i < data.len()
        invariant
            i <= data@.len(),
            orig == data@,
            padded@ =~= data@.subrange(0, i as int),
        decreases data@.len() - i,
    {
        padded.push(data[i]);
        i = i + 1;
    }
    proof {
        assert(padded@ =~= data@);
    }
    while padded.len() < window_size
        invariant
            orig == data@,
            padded@.len() >= data@.len(),
            padded@.len() <= spec_padded_bytes(data@, window_size as nat).len(),
            padded@ =~= spec_padded_bytes(data@, window_size as nat).subrange(
                0,
                padded@.len() as int,
            ),
        decreases window_size - padded@.len(),
    {
        proof {
            assert(spec_padded_bytes(data@, window_size as nat)[padded@.len() as int] == 0u8);
        }
        padded.push(0u8);
        proof {
            assert(padded@ =~= spec_padded_bytes(data@, window_size as nat).subrange(
                0,
                padded@.len() as int,
            ));
        }
    }
    proof {
        assert(padded@ =~= spec_padded_bytes(data@, window_size as nat));
    }
    let n = padded.len();
    let ghost wh = spec_byte_window_hashes(orig, window_size as nat);
    proof {
        assert(wh.len() == n - window_size + 1);
    }
    let mut r: Vec<u64> = Vec::new();
    let mut start: usize = 0;
    while start <= n - window_size
        invariant
            1 <= window_size,
            padded@ == spec_padded_bytes(orig, window_size as nat),
            n == padded@.len(),
            window_size <= n,
            start <= n - window_size + 1,
            wh == spec_byte_window_hashes(orig, window_size as nat),
            wh.len() == n - window_size + 1,
            r@ =~= wh.subrange(0, start as int),
        decreases n - start,
    {
        let h = hash_byte_range(padded.as_slice(), start, start + window_size);
        r.push(h);
        start = start + 1;
        proof {
            assert(r@ =~= wh.subrange(0, start as int));
        }
    }
    proof {
        assert(r@ =~= wh);
    }
    r
}

/// An opcode vector, zero-padded on the right up to length `w` when it is
/// shorter than one window.
pub open spec fn spec_padded(s: Seq<u16>, w: nat) -> Seq<u16> {
    if s.len() >= w {
        s
    } else {
        s + Seq::new((w - s.len()) as nat, |i: int| 0u16)
    }
}

/// The rolling window hashes of an opcode vector: one hash per start
/// position of a window of `w` opcodes over the padded vector, so
/// `max(1, len - w + 1)` hashes in all.
pub open spec fn spec_window_hashes(s: Seq<u16>, w: nat) -> Seq<u64>
    recommends
        w >= 1,
{
    Seq::new(
        (spec_padded(s, w).len() - w + 1) as nat,
        |i: int| spec_hash_opcodes(spec_padded(s, w).subrange(i, i + w)),
    )
}

/// Rolling window hashes of `data` with window width `window_size`
/// (the database window width `W_db`).
///
/// A vector shorter than one window is zero-padded up to `window_size` and
/// yields exactly one hash; otherwise one hash is produced for each of the
/// `len - window_size + 1` window start positions.
pub fn get_hashes(data: &Vec<u16>, window_size: usize) -> (r: Vec<u64>)
    requires
        1 <= window_size,
        data@.len() + window_size < usize::MAX,
    ensures
        r@ == spec_window_hashes(data@, window_size as nat),
        r@.len() == if data@.len() >= window_size {
            data@.len() - window_size + 1
        } else {
            1int
        },
{
    let ghost orig = data@;
    let mut padded: Vec<u16> = Vec::new();
    let mut i: usize = 0;
    while i < data.len()
        invariant
            i <= data@.len(),
            orig == data@,
            padded@ =~= data@.subrange(0, i as int),
        decreases data@.len() - i,
    {
        padded.push(data[i]);
        i = i + 1;
    }
    proof {
        assert(padded@ =~= data@);
    }
    while padded.len() < window_size
        invariant
            orig == data@,
            padded@.len() >= data@.len(),
            padded@.len() <= spec_padded(data@, window_size as nat).len(),
            padded@ =~= spec_padded(data@, window_size as nat).subrange(0, padded@.len() as int),
        decreases window_size - padded@.len(),
    {
        proof {
            assert(spec_padded(data@, window_size as nat)[padded@.len() as int] == 0u16);
        }
        padded.push(0u16);
        proof {
            assert(padded@ =~= spec_padded(data@, window_size as nat).subrange(
                0,
                padded@.len() as int,
            ));
        }
    }
    proof {
        assert(padded@ =~= spec_padded(data@, window_size as nat));
    }
    let n = padded.len();
    let ghost wh = spec_window_hashes(orig, window_size as nat);
    proof {
        assert(wh.len() == n - window_size + 1);
    }
    let mut r: Vec<u64> = Vec::new();
    let mut start: usize = 0;
    while start <= n - window_size
        invariant
            1 <= window_size,
            padded@ == spec_padded(orig, window_size as nat),
            n == padded@.len(),
            window_size <= n,
            start <= n - window_size + 1,
            wh == spec_window_hashes(orig, window_size as nat),
            wh.len() == n - window_size + 1,
            r@ =~= wh.subrange(0, start as int),
        decreases n - start,
    {
        let h = hash_opcode_range(padded.as_slice(), start, start + window_size);
        r.push(h);
        start = start + 1;
        proof {
            assert(r@ =~= wh.subrange(0, start as int));
        }
    }
    proof {
        assert(r@ =~= wh);
    }
    r
}

} // verus!
