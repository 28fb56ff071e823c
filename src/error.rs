use vstd::prelude::*;

verus! {

/// Why a transform was refused. No partial buffer is ever returned.
#[derive(Debug, Clone, Copy, PartialEq, Eq, Structural)]
pub enum CipherError {
    /// The key is empty, so there is nothing to derive parameters from.
    InvalidKey,
    /// The buffer's dimensions do not fit the transform (a non-square image
    /// for the cat map, a zero side, or a byte count that does not match).
    UnsupportedDimensions,
    /// A pixel coordinate lies outside the buffer.
    OutOfBounds,
    /// The Hénon orbit left its bounded region.
    UnstableParameters,
    /// Every salted key-derived mixing matrix was singular.
    DegenerateMatrix,
}

impl CipherError {
    /// A short human-readable description.
    pub fn message(&self) -> (r: String) {
        match self {
            CipherError::InvalidKey => "invalid key: the key is empty".to_string(),
            CipherError::UnsupportedDimensions => "unsupported image dimensions".to_string(),
            CipherError::OutOfBounds => "pixel coordinate out of bounds".to_string(),
            CipherError::UnstableParameters => "chaotic orbit left its bounded region".to_string(),
            CipherError::DegenerateMatrix => "key-derived matrix is singular".to_string(),
        }
    }
}

} // verus!
