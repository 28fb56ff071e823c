use vstd::prelude::*;
use vstd::string::*;

use crate::error::CipherError;

verus! {

/// FNV-1a 64-bit offset basis.
pub const FNV_OFFSET: u64 = 0xcbf2_9ce4_8422_2325;

/// FNV-1a 64-bit prime.
pub const FNV_PRIME: u64 = 0x0000_0100_0000_01b3;

/// Fixed-point scale of the Hénon parameters and orbit: `1.0` is `1 << 16`.
pub const FIX_ONE: i64 = 65536;

/// Reference Hénon coefficient `a ≈ 1.4` in fixed point.
pub const HENON_A_REF: i64 = 91750;

/// Reference Hénon coefficient `b ≈ 0.3` in fixed point.
pub const HENON_B_REF: i64 = 19661;

/// FNV-1a over a byte string: start from the offset basis, and for each byte
/// xor it in and multiply by the prime modulo `2^64`.
pub open spec fn fnv1a(bytes: Seq<u8>) -> u64
    decreases bytes.len(),
{
    if bytes.len() == 0 {
        FNV_OFFSET
    } else {
        vstd::wrapping::u64_specs::wrapping_mul(
            fnv1a(bytes.drop_last()) ^ (bytes.last() as u64),
            FNV_PRIME,
        )
    }
}

/// First multiplier of the 64-bit finalizer.
pub const MIX_MUL1: u64 = 0xff51_afd7_ed55_8ccd;

/// Second multiplier of the 64-bit finalizer.
pub const MIX_MUL2: u64 = 0xc4ce_b9fe_1a85_ec53;

/// The MurmurHash3 64-bit finalizer: xor-shifts by 33 around two
/// multiplications modulo `2^64`. It spreads every input bit over the whole
/// word, so that short keys that differ in one byte get unrelated high bits.
pub open spec fn mix64(h: u64) -> u64 {
    let h1 = vstd::wrapping::u64_specs::wrapping_mul(h ^ (h >> 33u64), MIX_MUL1);
    let h2 = vstd::wrapping::u64_specs::wrapping_mul(h1 ^ (h1 >> 33u64), MIX_MUL2);
    h2 ^ (h2 >> 33u64)
}

/// The seed of a key's bytes: FNV-1a, then the finalizer.
pub open spec fn key_seed(bytes: Seq<u8>) -> u64 {
    mix64(fnv1a(bytes))
}

/// The numeric parameters that every cipher draws from one key. The cat
/// map's coefficients depend on the image side too, and are taken from
/// `seed` when the side is known.
#[derive(Debug, Clone, Copy, PartialEq, Eq, Structural)]
pub struct ParameterSet {
    /// The 64-bit key seed all other fields are taken from.
    pub seed: u64,
    /// Number of cat map rounds, in `1..=8`.
    pub rounds: usize,
    /// Hénon `a` in fixed point, within `0.05` below the reference value.
    pub henon_a: i64,
    /// Hénon `b` in fixed point, within `0.01` below the reference value.
    pub henon_b: i64,
    /// Hénon start `x0` in fixed point, in `[0, 0.25)`.
    pub henon_x0: i64,
    /// Hénon start `y0` in fixed point, in `[0, 0.0625)`.
    pub henon_y0: i64,
}

/// The parameter set taken from a seed: each field is a fixed bit range of
/// the seed mapped into its range. The Hénon coefficients are perturbations
/// of the reference values that keep the map in its chaotic regime.
pub open spec fn params_of(seed: u64) -> ParameterSet {
    ParameterSet {
        seed,
        rounds: (1 + (seed >> 16u64) % 8) as usize,
        henon_a: (HENON_A_REF - ((seed >> 24u64) % 3277) as int) as i64,
        henon_b: (HENON_B_REF - ((seed >> 36u64) % 656) as int) as i64,
        henon_x0: ((seed >> 44u64) % 16384) as i64,
        henon_y0: ((seed >> 52u64) % 4096) as i64,
    }
}

impl ParameterSet {
    /// The ranges every derived parameter set lies in.
    pub open spec fn in_range(&self) -> bool {
        &&& 1 <= self.rounds <= 8
        &&& HENON_A_REF - 3277 < self.henon_a <= HENON_A_REF
        &&& HENON_B_REF - 656 < self.henon_b <= HENON_B_REF
        &&& 0 <= self.henon_x0 < 16384
        &&& 0 <= self.henon_y0 < 4096
    }
}

/// The 64-bit FNV-1a hash of a byte string.
pub fn fnv1a_hash(bytes: &[u8]) -> (h: u64)
    ensures
        h == fnv1a(bytes@),
{
    let mut h: u64 = FNV_OFFSET;
    let mut i: usize = 0;
    while i < bytes.len()
        invariant
            i <= bytes@.len(),
            h == fnv1a(bytes@.subrange(0, i as int)),
        decreases bytes@.len() - i,
    {
        proof {
            let next = bytes@.subrange(0, i + 1);
            assert(next.drop_last() =~= bytes@.subrange(0, i as int));
            assert(next.last() == bytes@[i as int]);
        }
        h = (h ^ (bytes[i] as u64)).wrapping_mul(FNV_PRIME);
        i = i + 1;
    }
    assert(bytes@.subrange(0, i as int) =~= bytes@);
    h
}

/// The finalizer `mix64`.
pub fn mix64_exec(h: u64) -> (r: u64)
    ensures
        r == mix64(h),
{
    let h1 = (h ^ (h >> 33u64)).wrapping_mul(MIX_MUL1);
    let h2 = (h1 ^ (h1 >> 33u64)).wrapping_mul(MIX_MUL2);
    h2 ^ (h2 >> 33u64)
}

/// The parameter set of a seed.
pub fn params_from_seed(seed: u64) -> (p: ParameterSet)
    ensures
        p == params_of(seed),
        p.in_range(),
{
    ParameterSet {
        seed,
        rounds: (1 + (seed >> 16u64) % 8) as usize,
        henon_a: HENON_A_REF - ((seed >> 24u64) % 3277) as i64,
        henon_b: HENON_B_REF - ((seed >> 36u64) % 656) as i64,
        henon_x0: ((seed >> 44u64) % 16384) as i64,
        henon_y0: ((seed >> 52u64) % 4096) as i64,
    }
}

/// Expands a passphrase into its parameter set: the seed is the FNV-1a hash
/// of the key's UTF-8 bytes, passed through the finalizer. An empty key is refused with `InvalidKey`.
pub fn derive_parameters(key: &str) -> (r: Result<ParameterSet, CipherError>)
    ensures
        key.spec_bytes().len() == 0 ==> r == Err::<ParameterSet, CipherError>(CipherError::InvalidKey),
        key.spec_bytes().len() > 0 ==> r == Ok::<ParameterSet, CipherError>(params_of(key_seed(key.spec_bytes()))),
        r matches Ok(p) ==> p.in_range(),
{
    let bytes = key.as_bytes();
    if bytes.len() == 0 {
        return Err(CipherError::InvalidKey);
    }
    Ok(params_from_seed(mix64_exec(fnv1a_hash(bytes))))
}

} // verus!
