//! Cipher choices that carry their own key, applied to a batch of images.
use vstd::prelude::*;

use crate::engine::{self, decrypt_outcome, encrypt_outcome, key_params, refusal, CipherMethod};
use crate::error::CipherError;
use crate::pixels::PixelBuffer;

verus! {

/// The cat map with its key.
#[derive(Debug, Clone, PartialEq, Eq, Hash)]
pub struct ArnoldCat {
    pub key: String,
}

/// The Hénon cipher with its key.
#[derive(Debug, Clone, PartialEq, Eq, Hash)]
pub struct Henon {
    pub key: String,
}

/// A cipher picked for a batch of images; the key may not have been given yet.
#[derive(Debug, Clone, PartialEq, Eq, Hash)]
pub enum EncMethod {
    ArnoldCat(Option<ArnoldCat>),
    Henon(Option<Henon>),
}

impl Default for EncMethod {
    fn default() -> (r: Self)
        ensures
            r matches EncMethod::ArnoldCat(None),
    {
        EncMethod::ArnoldCat(None)
    }
}

/// Every image of the batch is accepted under `key` by `method`.
/// Some image of the batch is refused with `e`, and every image before it
/// is accepted.
pub open spec fn first_refusal(images: Seq<PixelBuffer>, key: Seq<char>, method: CipherMethod, e: CipherError, decrypting: bool) -> bool {
    exists|t: int| #![trigger images[t]]
        0 <= t < images.len() && (if decrypting {
            decrypt_outcome(&images[t], key, method, Err(e))
        } else {
            encrypt_outcome(&images[t], key, method, Err(e))
        }) && forall|j: int| 0 <= j < t ==> image_accepted(&images[j], key, method)
}

/// Every image of the batch is accepted.
pub open spec fn all_accepted(images: Seq<PixelBuffer>, key: Seq<char>, method: CipherMethod) -> bool {
    forall|i: int| 0 <= i < images.len() ==> #[trigger] image_accepted(&images[i], key, method)
}

pub open spec fn image_accepted(b: &PixelBuffer, key: Seq<char>, method: CipherMethod) -> bool {
    &&& vstd::utf8::encode_utf8(key).len() > 0
    &&& refusal(method, b, key_params(key)) is None
}

impl EncMethod {
    /// The cipher this choice stands for.
    pub open spec fn method(&self) -> CipherMethod {
        match self {
            EncMethod::ArnoldCat(_) => CipherMethod::ArnoldCat(engine::ArnoldCat),
            EncMethod::Henon(_) => CipherMethod::HenonMap(engine::HenonMap),
        }
    }

    /// The key, when one was given.
    pub open spec fn key(&self) -> Option<Seq<char>> {
        match self {
            EncMethod::ArnoldCat(Some(c)) => Some(c.key@),
            EncMethod::Henon(Some(h)) => Some(h.key@),
            _ => None,
        }
    }

    /// The display name of the cipher.
    pub fn name(&self) -> (r: String) {
        match self {
            EncMethod::ArnoldCat(_) => "ArnoldCat".to_string(),
            EncMethod::Henon(_) => "Hénon".to_string(),
        }
    }

    fn key_str(&self) -> (r: Option<&str>)
        ensures
            match self.key() {
                Some(k) => r matches Some(s) && s@ == k,
                None => r is None,
            },
    {
        match self {
            EncMethod::ArnoldCat(Some(c)) => Some(c.key.as_str()),
            EncMethod::Henon(Some(h)) => Some(h.key.as_str()),
            _ => None,
        }
    }

    /// Encrypts every image of the batch, in order. Without a key the batch
    /// is refused with `InvalidKey`; otherwise the first image that the
    /// cipher refuses decides the error.
    pub fn encrypt(&self, images: &Vec<PixelBuffer>) -> (r: Result<Vec<PixelBuffer>, CipherError>)
        requires
            forall|i: int| 0 <= i < images@.len() ==> #[trigger] images@[i].wf(),
        ensures
            self.key() is None ==> r == Err::<Vec<PixelBuffer>, CipherError>(CipherError::InvalidKey),
            self.key() is Some && all_accepted(images@, self.key().unwrap(), self.method()) ==> r is Ok,
            r matches Ok(v) ==> self.key() matches Some(k) && v@.len() == images@.len() && forall|i: int| 0 <= i < images@.len()
                ==> #[trigger] encrypt_outcome(&images@[i], k, self.method(), Ok(v@[i])),
            r matches Err(e) ==> self.key() is None || (self.key() matches Some(k) && first_refusal(images@, k, self.method(), e, false)),
    {
        let key = match self.key_str() {
            Some(k) => k,
            None => return Err(CipherError::InvalidKey),
        };
        let ghost k = self.key().unwrap();
        let method = match self {
            EncMethod::ArnoldCat(_) => CipherMethod::ArnoldCat(engine::ArnoldCat),
            EncMethod::Henon(_) => CipherMethod::HenonMap(engine::HenonMap),
        };
        let mut out: Vec<PixelBuffer> = Vec::with_capacity(images.len());
        let mut i: usize = 0;
        while i < images.len()
            invariant
                key@ == k,
                self.key() == Some(k),
                method == self.method(),
                forall|t: int| 0 <= t < images@.len() ==> #[trigger] images@[t].wf(),
                i <= images@.len(),
                out@.len() == i,
                forall|t: int| 0 <= t < i ==> #[trigger] encrypt_outcome(&images@[t], k, method, Ok(out@[t])),
                forall|t: int| 0 <= t < i ==> #[trigger] image_accepted(&images@[t], k, method),
            decreases images@.len() - i,
        {
            let res = engine::encrypt(&images[i], key, method);
            match res {
                Ok(e) => {
                    out.push(e);
                },
                Err(e) => {
                    assert(encrypt_outcome(&images@[i as int], k, method, Err(e)));
                    assert(!image_accepted(&images@[i as int], k, method));
                    assert(!all_accepted(images@, k, self.method()));
                    assert(first_refusal(images@, k, method, e, false)) by {
                        let _ = images@[i as int];
                    }
                    return Err(e);
                },
            }
            i = i + 1;
        }
        Ok(out)
    }

    /// Decrypts every image of the batch, in order. Without a key the batch
    /// is refused with `InvalidKey`; otherwise the first image that the
    /// cipher refuses decides the error.
    pub fn decrypt(&self, images: &Vec<PixelBuffer>) -> (r: Result<Vec<PixelBuffer>, CipherError>)
        requires
            forall|i: int| 0 <= i < images@.len() ==> #[trigger] images@[i].wf(),
        ensures
            self.key() is None ==> r == Err::<Vec<PixelBuffer>, CipherError>(CipherError::InvalidKey),
            self.key() is Some && all_accepted(images@, self.key().unwrap(), self.method()) ==> r is Ok,
            r matches Ok(v) ==> self.key() matches Some(k) && v@.len() == images@.len() && forall|i: int| 0 <= i < images@.len()
                ==> #[trigger] decrypt_outcome(&images@[i], k, self.method(), Ok(v@[i])),
            r matches Err(e) ==> self.key() is None || (self.key() matches Some(k) && first_refusal(images@, k, self.method(), e, true)),
    {
        let key = match self.key_str() {
            Some(k) => k,
            None => return Err(CipherError::InvalidKey),
        };
        let ghost k = self.key().unwrap();
        let method = match self {
            EncMethod::ArnoldCat(_) => CipherMethod::ArnoldCat(engine::ArnoldCat),
            EncMethod::Henon(_) => CipherMethod::HenonMap(engine::HenonMap),
        };
        let mut out: Vec<PixelBuffer> = Vec::with_capacity(images.len());
        let mut i: usize = 0;
        while i < images.len()
            invariant
                key@ == k,
                self.key() == Some(k),
                method == self.method(),
                forall|t: int| 0 <= t < images@.len() ==> #[trigger] images@[t].wf(),
                i <= images@.len(),
                out@.len() == i,
                forall|t: int| 0 <= t < i ==> #[trigger] decrypt_outcome(&images@[t], k, method, Ok(out@[t])),
                forall|t: int| 0 <= t < i ==> #[trigger] image_accepted(&images@[t], k, method),
            decreases images@.len() - i,
        {
            let res = engine::decrypt(&images[i], key, method);
            match res {
                Ok(d) => {
                    out.push(d);
                },
                Err(e) => {
                    assert(decrypt_outcome(&images@[i as int], k, method, Err(e)));
                    assert(!image_accepted(&images@[i as int], k, method));
                    assert(!all_accepted(images@, k, self.method()));
                    assert(first_refusal(images@, k, method, e, true)) by {
                        let _ = images@[i as int];
                    }
                    return Err(e);
                },
            }
            i = i + 1;
        }
        Ok(out)
    }
}

} // verus!
