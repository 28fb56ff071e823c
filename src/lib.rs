//! A chaos-based image scrambling engine.
//!
//! Images are handed over as a [`PixelBuffer`] (four channel planes of bytes).
//! A passphrase is expanded by [`derive_parameters`] into a [`ParameterSet`],
//! and one of three keyed, exactly invertible transforms is applied:
//! a discrete Arnold cat map permutation, a Hénon-map permutation followed by a
//! modular diffusion mask, and a hyperchaotic diffusion whose per-channel
//! streams are seeded from the singular-value invariants of a key-derived
//! 4×4 matrix.

pub mod error;
pub mod pixels;
pub mod key;
pub mod perm;
pub mod arnold;
pub mod henon;
pub mod hyper;
pub mod engine;
pub mod keyed;

pub use engine::{decrypt, encrypt, ArnoldCat, CipherMethod, HenonMap, HyperChaosSVD};
pub use error::CipherError;
pub use keyed::{EncMethod, Henon};
pub use key::{derive_parameters, ParameterSet};
pub use pixels::{Channel, PixelBuffer};
