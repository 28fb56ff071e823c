//! One contract over the three ciphers: pick a method, give a key, and get
//! an exactly invertible transform of the buffer.
use vstd::prelude::*;
use vstd::string::*;

use crate::arnold::{
    arnold_decrypt, arnold_decrypted, arnold_encrypt, arnold_encrypted, cat_coeff_a, cat_coeff_b, cat_gather,
    cat_rounds, cat_scatter, lemma_arnold_round_trip, lemma_cat_pair,
};
use crate::error::CipherError;
use crate::henon::{
    henon_decrypt, henon_decrypted, henon_encrypt, henon_encrypted, henon_mask, henon_perm, henon_stable, henon_unperm,
    lemma_henon_perm_bijective, lemma_henon_round_trip, HENON_WARMUP,
};
use crate::hyper::{hyper_decrypt, hyper_decrypted, hyper_encrypt, hyper_encrypted, lemma_hyper_round_trip, svd_invariants};
use crate::key::{derive_parameters, key_seed, params_of, ParameterSet};
use crate::perm::{add_mask, gather, lemma_gather_iter_multiset, lemma_gather_multiset, lemma_mask_cancel, sub_mask};
use crate::pixels::{Channel, PixelBuffer};

verus! {

/// The discrete Arnold cat map permutation.
#[derive(Debug, Clone, Copy, PartialEq, Eq, Structural)]
pub struct ArnoldCat;

/// The Hénon-map shuffle and diffusion.
#[derive(Debug, Clone, Copy, PartialEq, Eq, Structural)]
pub struct HenonMap;

/// The hyperchaotic diffusion seeded from singular values.
#[derive(Debug, Clone, Copy, PartialEq, Eq, Structural)]
pub struct HyperChaosSVD;

/// The choice of cipher.
#[derive(Debug, Clone, Copy, PartialEq, Eq, Structural)]
pub enum CipherMethod {
    ArnoldCat(ArnoldCat),
    HenonMap(HenonMap),
    HyperChaosSVD(HyperChaosSVD),
}

/// The parameters of a key given as characters: those of its UTF-8 bytes.
pub open spec fn key_params(key: Seq<char>) -> ParameterSet {
    params_of(key_seed(vstd::utf8::encode_utf8(key)))
}

/// Why `method` refuses buffer `b` under parameters `p`, if it does.
pub open spec fn refusal(method: CipherMethod, b: &PixelBuffer, p: ParameterSet) -> Option<CipherError> {
    match method {
        CipherMethod::ArnoldCat(_) => if b.width != b.height {
            Some(CipherError::UnsupportedDimensions)
        } else {
            None
        },
        CipherMethod::HenonMap(_) => if !henon_stable(p, (HENON_WARMUP + b.area()) as nat) {
            Some(CipherError::UnstableParameters)
        } else {
            None
        },
        CipherMethod::HyperChaosSVD(_) => if svd_invariants(p.seed) is None {
            Some(CipherError::DegenerateMatrix)
        } else {
            None
        },
    }
}

/// `r` is the encryption of `b` by `method` under `p`.
pub open spec fn encrypted_with(method: CipherMethod, b: &PixelBuffer, p: ParameterSet, r: &PixelBuffer) -> bool {
    match method {
        CipherMethod::ArnoldCat(_) => arnold_encrypted(b, p, r),
        CipherMethod::HenonMap(_) => henon_encrypted(b, p, r),
        CipherMethod::HyperChaosSVD(_) => hyper_encrypted(b, p, r),
    }
}

/// `r` is the decryption of `b` by `method` under `p`.
pub open spec fn decrypted_with(method: CipherMethod, b: &PixelBuffer, p: ParameterSet, r: &PixelBuffer) -> bool {
    match method {
        CipherMethod::ArnoldCat(_) => arnold_decrypted(b, p, r),
        CipherMethod::HenonMap(_) => henon_decrypted(b, p, r),
        CipherMethod::HyperChaosSVD(_) => hyper_decrypted(b, p, r),
    }
}

/// The outcome that `encrypt` owes for a buffer, a key and a method.
pub open spec fn encrypt_outcome(b: &PixelBuffer, key: Seq<char>, method: CipherMethod, r: Result<PixelBuffer, CipherError>) -> bool {
    if vstd::utf8::encode_utf8(key).len() == 0 {
        r == Err::<PixelBuffer, CipherError>(CipherError::InvalidKey)
    } else {
        match refusal(method, b, key_params(key)) {
            Some(e) => r == Err::<PixelBuffer, CipherError>(e),
            None => r matches Ok(e) && encrypted_with(method, b, key_params(key), &e),
        }
    }
}

/// The outcome that `decrypt` owes for a buffer, a key and a method.
pub open spec fn decrypt_outcome(b: &PixelBuffer, key: Seq<char>, method: CipherMethod, r: Result<PixelBuffer, CipherError>) -> bool {
    if vstd::utf8::encode_utf8(key).len() == 0 {
        r == Err::<PixelBuffer, CipherError>(CipherError::InvalidKey)
    } else {
        match refusal(method, b, key_params(key)) {
            Some(e) => r == Err::<PixelBuffer, CipherError>(e),
            None => r matches Ok(d) && decrypted_with(method, b, key_params(key), &d),
        }
    }
}

/// Encrypts `image` under `key` with `method`. An empty key is refused
/// with `InvalidKey`; otherwise the method's own refusal applies.
pub fn encrypt(image: &PixelBuffer, key: &str, method: CipherMethod) -> (r: Result<PixelBuffer, CipherError>)
    requires
        image.wf(),
    ensures
        encrypt_outcome(image, key@, method, r),
{
    let p = match derive_parameters(key) {
        Ok(p) => p,
        Err(e) => return Err(e),
    };
    match method {
        CipherMethod::ArnoldCat(_) => arnold_encrypt(image, &p),
        CipherMethod::HenonMap(_) => henon_encrypt(image, &p),
        CipherMethod::HyperChaosSVD(_) => hyper_encrypt(image, &p),
    }
}

/// Decrypts `image` under `key` with `method`. An empty key is refused
/// with `InvalidKey`; otherwise the method's own refusal applies.
pub fn decrypt(image: &PixelBuffer, key: &str, method: CipherMethod) -> (r: Result<PixelBuffer, CipherError>)
    requires
        image.wf(),
    ensures
        decrypt_outcome(image, key@, method, r),
{
    let p = match derive_parameters(key) {
        Ok(p) => p,
        Err(e) => return Err(e),
    };
    match method {
        CipherMethod::ArnoldCat(_) => arnold_decrypt(image, &p),
        CipherMethod::HenonMap(_) => henon_decrypt(image, &p),
        CipherMethod::HyperChaosSVD(_) => hyper_decrypt(image, &p),
    }
}

impl CipherMethod {
    /// Encrypts `image` under `key` with this method.
    pub fn encrypt(&self, image: &PixelBuffer, key: &str) -> (r: Result<PixelBuffer, CipherError>)
        requires
            image.wf(),
        ensures
            encrypt_outcome(image, key@, *self, r),
    {
        encrypt(image, key, *self)
    }

    /// Decrypts `image` under `key` with this method.
    pub fn decrypt(&self, image: &PixelBuffer, key: &str) -> (r: Result<PixelBuffer, CipherError>)
        requires
            image.wf(),
        ensures
            decrypt_outcome(image, key@, *self, r),
    {
        decrypt(image, key, *self)
    }

    /// The method's display name.
    pub fn name(&self) -> (r: String) {
        match self {
            CipherMethod::ArnoldCat(_) => "ArnoldCat".to_string(),
            CipherMethod::HenonMap(_) => "HenonMap".to_string(),
            CipherMethod::HyperChaosSVD(_) => "HyperChaosSVD".to_string(),
        }
    }
}

impl ArnoldCat {
    /// Encrypts `image` under `key` with the cat map.
    pub fn encrypt(image: &PixelBuffer, key: &str) -> (r: Result<PixelBuffer, CipherError>)
        requires
            image.wf(),
        ensures
            encrypt_outcome(image, key@, CipherMethod::ArnoldCat(ArnoldCat), r),
    {
        encrypt(image, key, CipherMethod::ArnoldCat(ArnoldCat))
    }

    /// Decrypts `image` under `key` with the cat map.
    pub fn decrypt(image: &PixelBuffer, key: &str) -> (r: Result<PixelBuffer, CipherError>)
        requires
            image.wf(),
        ensures
            decrypt_outcome(image, key@, CipherMethod::ArnoldCat(ArnoldCat), r),
    {
        decrypt(image, key, CipherMethod::ArnoldCat(ArnoldCat))
    }
}

impl HenonMap {
    /// Encrypts `image` under `key` with the Hénon cipher.
    pub fn encrypt(image: &PixelBuffer, key: &str) -> (r: Result<PixelBuffer, CipherError>)
        requires
            image.wf(),
        ensures
            encrypt_outcome(image, key@, CipherMethod::HenonMap(HenonMap), r),
    {
        encrypt(image, key, CipherMethod::HenonMap(HenonMap))
    }

    /// Decrypts `image` under `key` with the Hénon cipher.
    pub fn decrypt(image: &PixelBuffer, key: &str) -> (r: Result<PixelBuffer, CipherError>)
        requires
            image.wf(),
        ensures
            decrypt_outcome(image, key@, CipherMethod::HenonMap(HenonMap), r),
    {
        decrypt(image, key, CipherMethod::HenonMap(HenonMap))
    }
}

impl HyperChaosSVD {
    /// Encrypts `image` under `key` with the hyperchaotic cipher.
    pub fn encrypt(image: &PixelBuffer, key: &str) -> (r: Result<PixelBuffer, CipherError>)
        requires
            image.wf(),
        ensures
            encrypt_outcome(image, key@, CipherMethod::HyperChaosSVD(HyperChaosSVD), r),
    {
        encrypt(image, key, CipherMethod::HyperChaosSVD(HyperChaosSVD))
    }

    /// Decrypts `image` under `key` with the hyperchaotic cipher.
    pub fn decrypt(image: &PixelBuffer, key: &str) -> (r: Result<PixelBuffer, CipherError>)
        requires
            image.wf(),
        ensures
            decrypt_outcome(image, key@, CipherMethod::HyperChaosSVD(HyperChaosSVD), r),
    {
        decrypt(image, key, CipherMethod::HyperChaosSVD(HyperChaosSVD))
    }
}

/// Round trip: when `encrypt` returned `e` for a buffer, a key and a method,
/// and `decrypt` returned `d` for `e` with the same key and method, then `d`
/// is the buffer that was encrypted, byte for byte. (That `decrypt` does
/// return a buffer there is `lemma_decrypt_accepts`.)
pub proof fn lemma_round_trip(
    b: &PixelBuffer,
    key: Seq<char>,
    method: CipherMethod,
    e: &PixelBuffer,
    d: &PixelBuffer,
)
    requires
        b.wf(),
        encrypt_outcome(b, key, method, Ok(*e)),
        decrypt_outcome(e, key, method, Ok(*d)),
    ensures
        d.same_image(b),
{
    let p = key_params(key);
    match method {
        CipherMethod::ArnoldCat(_) => lemma_arnold_round_trip(b, p, e, d),
        CipherMethod::HenonMap(_) => lemma_henon_round_trip(b, p, e, d),
        CipherMethod::HyperChaosSVD(_) => lemma_hyper_round_trip(b, p, e, d),
    }
}

/// Decryption is owed: when `encrypt` accepted a buffer, `decrypt` accepts
/// its result under the same key and method.
pub proof fn lemma_decrypt_accepts(b: &PixelBuffer, key: Seq<char>, method: CipherMethod, e: &PixelBuffer)
    requires
        b.wf(),
        encrypt_outcome(b, key, method, Ok(*e)),
    ensures
        vstd::utf8::encode_utf8(key).len() > 0,
        refusal(method, e, key_params(key)) is None,
        e.wf(),
{
}

/// Determinism: two results of `encrypt` on the same buffer, key and method
/// hold the same image.
pub proof fn lemma_deterministic(
    b: &PixelBuffer,
    key: Seq<char>,
    method: CipherMethod,
    e1: &PixelBuffer,
    e2: &PixelBuffer,
)
    requires
        encrypt_outcome(b, key, method, Ok(*e1)),
        encrypt_outcome(b, key, method, Ok(*e2)),
    ensures
        e1.same_image(e2),
{
    assert(e1.plane(Channel::Red) == e2.plane(Channel::Red));
    assert(e1.plane(Channel::Green) == e2.plane(Channel::Green));
    assert(e1.plane(Channel::Blue) == e2.plane(Channel::Blue));
    assert(e1.plane(Channel::Alpha) == e2.plane(Channel::Alpha));
}

/// The cat map only moves samples: every plane of its result holds the same
/// multiset of values as the plane it came from.
pub proof fn lemma_arnold_keeps_multiset(b: &PixelBuffer, key: Seq<char>, e: &PixelBuffer, c: Channel)
    requires
        b.wf(),
        encrypt_outcome(b, key, CipherMethod::ArnoldCat(ArnoldCat), Ok(*e)),
    ensures
        e.plane(c).to_multiset() == b.plane(c).to_multiset(),
{
    let p = key_params(key);
    let s = b.width as int;
    lemma_cat_pair(cat_coeff_a(p.seed, s), cat_coeff_b(p.seed, s), s);
    lemma_gather_iter_multiset(
        b.plane(c),
        cat_gather(cat_coeff_a(p.seed, s), cat_coeff_b(p.seed, s), s),
        cat_scatter(cat_coeff_a(p.seed, s), cat_coeff_b(p.seed, s), s),
        cat_rounds(p, s),
    );
}

/// The permutation layer of the Hénon cipher only moves samples: the plane
/// it hands to the diffusion holds the same multiset of values, and the
/// result is that plane with the mask added.
pub proof fn lemma_henon_keeps_multiset(b: &PixelBuffer, key: Seq<char>, e: &PixelBuffer, c: Channel)
    requires
        b.wf(),
        encrypt_outcome(b, key, CipherMethod::HenonMap(HenonMap), Ok(*e)),
    ensures
        gather(b.plane(c), henon_perm(key_params(key), b.area() as nat)).to_multiset() == b.plane(c).to_multiset(),
        e.plane(c) == add_mask(
            gather(b.plane(c), henon_perm(key_params(key), b.area() as nat)),
            henon_mask(key_params(key), b.area() as nat),
        ),
{
    let p = key_params(key);
    let n = b.area() as nat;
    lemma_henon_perm_bijective(p, n);
    lemma_gather_multiset(b.plane(c), henon_perm(p, n), henon_unperm(p, n));
}

/// Modular diffusion stays within bytes and cancels exactly: each masked
/// sample is `(x + m) mod 256`, and subtracting the mask restores every
/// sample, whatever the 256 possible values of sample and mask.
pub proof fn lemma_diffusion_closure(s: Seq<u8>, m: Seq<u8>)
    requires
        m.len() == s.len(),
    ensures
        forall|i: int| 0 <= i < s.len() ==> #[trigger] add_mask(s, m)[i] as int == (s[i] + m[i]) % 256,
        forall|i: int| 0 <= i < s.len() ==> #[trigger] sub_mask(s, m)[i] as int == (s[i] - m[i]) % 256,
        sub_mask(add_mask(s, m), m) == s,
{
    assert forall|i: int| 0 <= i < s.len() implies #[trigger] add_mask(s, m)[i] as int == (s[i] + m[i]) % 256 by {
        vstd::arithmetic::div_mod::lemma_mod_bound(s[i] + m[i], 256);
    }
    assert forall|i: int| 0 <= i < s.len() implies #[trigger] sub_mask(s, m)[i] as int == (s[i] - m[i]) % 256 by {
        vstd::arithmetic::div_mod::lemma_mod_bound(s[i] - m[i], 256);
    }
    lemma_mask_cancel(s, m);
}

} // verus!
