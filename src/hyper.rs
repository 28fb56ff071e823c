//! The hyperchaotic SVD cipher: channel-wise modular diffusion whose
//! streams are seeded from the singular values of a key-derived matrix.
//!
//! A four-variable coupled recurrence over 64-bit words, started from the
//! key seed and a salt, fills a 4×4 matrix `A` of bytes. Its singular values
//! `σ1..σ4` enter through two exact integer invariants: their product
//! `|det A|` and the sum of their squares `‖A‖²_F` (the squared Frobenius
//! norm, the trace of `AᵀA`). A singular matrix is rejected and rebuilt with
//! the next salt; after `SALT_LIMIT` singular matrices the key is refused
//! with `DegenerateMatrix`. Each channel then gets its own stream of the
//! same recurrence, started from the two invariants and the channel's
//! index, and that stream is added to the channel modulo 256.
use vstd::prelude::*;

use crate::error::CipherError;
use crate::key::ParameterSet;
use crate::perm::{add_mask, add_mask_plane, lemma_mask_cancel, sub_mask, sub_mask_plane};
use crate::pixels::{Channel, PixelBuffer};

verus! {

/// Multiplier of the first state word.
pub const HYPER_MUL: u64 = 0x5851_f42d_4c95_7f2d;

/// Multiplier of the second state word.
pub const HYPER_MUL2: u64 = 0x9e37_79b9_7f4a_7c15;

/// Fixed start of the fourth state word.
pub const HYPER_SALT_WORD: u64 = 0xd1b5_4a32_d192_ed03;

/// Steps skipped before a stream starts.
pub const HYPER_WARMUP: usize = 32;

/// How many salted matrices are tried before a key is refused.
pub const SALT_LIMIT: u64 = 8;

/// A state of the recurrence: four 64-bit words.
pub type HyperState = (u64, u64, u64, u64);

/// One step of the coupled recurrence, all arithmetic modulo `2^64`.
pub open spec fn hyper_next(s: HyperState) -> HyperState {
    let t0 = vstd::wrapping::u64_specs::wrapping_add(vstd::wrapping::u64_specs::wrapping_mul(s.0, HYPER_MUL), s.3);
    let t1 = vstd::wrapping::u64_specs::wrapping_mul(s.1 ^ (t0 >> 29u64), HYPER_MUL2);
    let t2 = vstd::wrapping::u64_specs::wrapping_add(s.2, t1 ^ (t1 >> 32u64));
    let t3 = vstd::wrapping::u64_specs::wrapping_add(s.3, t0 ^ t2);
    (t0, t1, t2, t3)
}

/// State `k` of the recurrence started at `init`.
pub open spec fn hyper_state(init: HyperState, k: nat) -> HyperState
    decreases k,
{
    if k == 0 {
        init
    } else {
        hyper_next(hyper_state(init, (k - 1) as nat))
    }
}

/// The output byte of a state: the top byte of its second word.
pub open spec fn hyper_byte(s: HyperState) -> u8 {
    (s.1 >> 56u64) as u8
}

/// `n` output bytes of the recurrence started at `init`, after the warm-up.
pub open spec fn hyper_stream(init: HyperState, n: nat) -> Seq<u8> {
    Seq::new(n, |i: int| hyper_byte(hyper_state(init, (HYPER_WARMUP + 1 + i) as nat)))
}

/// The start of the matrix recurrence for a seed and a salt.
pub open spec fn matrix_init(seed: u64, salt: u64) -> HyperState {
    (seed, seed ^ HYPER_MUL2, salt, HYPER_SALT_WORD ^ salt)
}

/// The 4×4 key matrix for a seed and a salt, row by row.
pub open spec fn key_matrix(seed: u64, salt: u64) -> Seq<u8> {
    hyper_stream(matrix_init(seed, salt), 16)
}

/// The 2×2 minor `a·d − b·c`.
pub open spec fn minor2(a: int, b: int, c: int, d: int) -> int {
    a * d - b * c
}

/// The determinant of a 4×4 matrix given row by row, by Laplace expansion
/// along the first two rows.
#[verifier::opaque]
pub open spec fn det4(m: Seq<u8>) -> int {
    let s0 = minor2(m[0] as int, m[1] as int, m[4] as int, m[5] as int);
    let s1 = minor2(m[0] as int, m[2] as int, m[4] as int, m[6] as int);
    let s2 = minor2(m[0] as int, m[3] as int, m[4] as int, m[7] as int);
    let s3 = minor2(m[1] as int, m[2] as int, m[5] as int, m[6] as int);
    let s4 = minor2(m[1] as int, m[3] as int, m[5] as int, m[7] as int);
    let s5 = minor2(m[2] as int, m[3] as int, m[6] as int, m[7] as int);
    let c5 = minor2(m[10] as int, m[11] as int, m[14] as int, m[15] as int);
    let c4 = minor2(m[9] as int, m[11] as int, m[13] as int, m[15] as int);
    let c3 = minor2(m[9] as int, m[10] as int, m[13] as int, m[14] as int);
    let c2 = minor2(m[8] as int, m[11] as int, m[12] as int, m[15] as int);
    let c1 = minor2(m[8] as int, m[10] as int, m[12] as int, m[14] as int);
    let c0 = minor2(m[8] as int, m[9] as int, m[12] as int, m[13] as int);
    s0 * c5 - s1 * c4 + s2 * c3 + s3 * c2 - s4 * c1 + s5 * c0
}

/// The squared Frobenius norm: the sum of the squared entries, which is
/// the sum of the squared singular values.
pub open spec fn frobenius_sq(m: Seq<u8>) -> int
    decreases m.len(),
{
    if m.len() == 0 {
        0
    } else {
        frobenius_sq(m.drop_last()) + (m.last() as int) * (m.last() as int)
    }
}

/// The first salt from `salt` on below `SALT_LIMIT` whose key matrix is
/// non-singular.
pub open spec fn first_regular_salt(seed: u64, salt: u64) -> Option<u64>
    decreases SALT_LIMIT - salt,
{
    if salt >= SALT_LIMIT {
        None
    } else if det4(key_matrix(seed, salt)) != 0 {
        Some(salt)
    } else {
        first_regular_salt(seed, (salt + 1) as u64)
    }
}

/// The singular-value invariants `(‖A‖²_F, |det A|)` of the key matrix, or
/// `None` when every salted matrix is singular.
pub open spec fn svd_invariants(seed: u64) -> Option<(int, int)> {
    match first_regular_salt(seed, 0) {
        Some(salt) => {
            let m = key_matrix(seed, salt);
            Some((frobenius_sq(m), if det4(m) < 0 { -det4(m) } else { det4(m) }))
        },
        None => None,
    }
}

pub open spec fn channel_index(c: Channel) -> u64 {
    match c {
        Channel::Red => 0,
        Channel::Green => 1,
        Channel::Blue => 2,
        Channel::Alpha => 3,
    }
}

/// The start of the stream of channel `c`.
pub open spec fn channel_init(fro: int, adet: int, c: Channel) -> HyperState {
    (fro as u64, adet as u64, channel_index(c), HYPER_SALT_WORD ^ channel_index(c))
}

/// The diffusion mask of channel `c` of an `n`-pixel plane.
pub open spec fn channel_mask(inv: (int, int), c: Channel, n: nat) -> Seq<u8> {
    hyper_stream(channel_init(inv.0, inv.1, c), n)
}

/// `r` is `b` with every channel masked by its own stream.
pub open spec fn hyper_encrypted(b: &PixelBuffer, p: ParameterSet, r: &PixelBuffer) -> bool {
    &&& svd_invariants(p.seed) is Some
    &&& r.wf()
    &&& r.width == b.width
    &&& r.height == b.height
    &&& forall|c: Channel| #[trigger] r.plane(c) == add_mask(b.plane(c), channel_mask(svd_invariants(p.seed).unwrap(), c, b.area() as nat))
}

/// `r` is `b` with every channel's stream subtracted.
pub open spec fn hyper_decrypted(b: &PixelBuffer, p: ParameterSet, r: &PixelBuffer) -> bool {
    &&& svd_invariants(p.seed) is Some
    &&& r.wf()
    &&& r.width == b.width
    &&& r.height == b.height
    &&& forall|c: Channel| #[trigger] r.plane(c) == sub_mask(b.plane(c), channel_mask(svd_invariants(p.seed).unwrap(), c, b.area() as nat))
}

fn hyper_step(s: HyperState) -> (r: HyperState)
    ensures
        r == hyper_next(s),
{
    let t0 = s.0.wrapping_mul(HYPER_MUL).wrapping_add(s.3);
    let t1 = (s.1 ^ (t0 >> 29u64)).wrapping_mul(HYPER_MUL2);
    let t2 = s.2.wrapping_add(t1 ^ (t1 >> 32u64));
    let t3 = s.3.wrapping_add(t0 ^ t2);
    (t0, t1, t2, t3)
}

/// `n` output bytes of the recurrence started at `init`.
pub fn hyper_stream_exec(init: HyperState, n: usize) -> (r: Vec<u8>)
    ensures
        r@ == hyper_stream(init, n as nat),
{
    let mut s = init;
    let mut k: usize = 0;
    while k <= HYPER_WARMUP
        invariant
            k <= HYPER_WARMUP + 1,
            s == hyper_state(init, k as nat),
        decreases HYPER_WARMUP + 1 - k,
    {
        s = hyper_step(s);
        k = k + 1;
    }
    let mut out: Vec<u8> = Vec::with_capacity(n);
    let mut i: usize = 0;
    while i < n
        invariant
            i <= n,
            s == hyper_state(init, (HYPER_WARMUP + 1 + i) as nat),
            out@ == hyper_stream(init, n as nat).subrange(0, i as int),
        decreases n - i,
    {
        out.push((s.1 >> 56u64) as u8);
        s = hyper_step(s);
        i = i + 1;
        assert(out@ =~= hyper_stream(init, n as nat).subrange(0, i as int));
    }
    assert(out@ =~= hyper_stream(init, n as nat));
    out
}

/// The minor `a·d − b·c` of four bytes.
fn minor_exec(a: u8, b: u8, c: u8, d: u8) -> (r: i64)
    ensures
        r == minor2(a as int, b as int, c as int, d as int),
        -65025 <= r <= 65025,
{
    proof {
        assert(0 <= (a as int) * (d as int) <= 65025) by (nonlinear_arith)
            requires a <= 255, d <= 255;
        assert(0 <= (b as int) * (c as int) <= 65025) by (nonlinear_arith)
            requires b <= 255, c <= 255;
    }
    (a as i64) * (d as i64) - (b as i64) * (c as i64)
}

/// The product of two minors.
fn minor_product(x: i64, y: i64) -> (r: i64)
    requires
        -65025 <= x <= 65025,
        -65025 <= y <= 65025,
    ensures
        r == x * y,
        -4228250625 <= r <= 4228250625,
{
    proof {
        assert(-4228250625 <= x * y <= 4228250625) by (nonlinear_arith)
            requires -65025 <= x <= 65025, -65025 <= y <= 65025;
    }
    x * y
}

/// The determinant of a 4×4 byte matrix given row by row.
pub fn determinant(m: &Vec<u8>) -> (r: i64)
    requires
        m@.len() == 16,
    ensures
        r == det4(m@),
        -25369503750 <= r <= 25369503750,
{
    reveal(det4);
    let s0 = minor_exec(m[0], m[1], m[4], m[5]);
    let s1 = minor_exec(m[0], m[2], m[4], m[6]);
    let s2 = minor_exec(m[0], m[3], m[4], m[7]);
    let s3 = minor_exec(m[1], m[2], m[5], m[6]);
    let s4 = minor_exec(m[1], m[3], m[5], m[7]);
    let s5 = minor_exec(m[2], m[3], m[6], m[7]);
    let c5 = minor_exec(m[10], m[11], m[14], m[15]);
    let c4 = minor_exec(m[9], m[11], m[13], m[15]);
    let c3 = minor_exec(m[9], m[10], m[13], m[14]);
    let c2 = minor_exec(m[8], m[11], m[12], m[15]);
    let c1 = minor_exec(m[8], m[10], m[12], m[14]);
    let c0 = minor_exec(m[8], m[9], m[12], m[13]);
    minor_product(s0, c5) - minor_product(s1, c4) + minor_product(s2, c3) + minor_product(s3, c2)
        - minor_product(s4, c1) + minor_product(s5, c0)
}

/// The sum of the squared entries of a byte matrix.
pub fn frobenius_norm_sq(m: &Vec<u8>) -> (r: u64)
    requires
        m@.len() <= 16,
    ensures
        r == frobenius_sq(m@),
{
    let mut acc: u64 = 0;
    let mut i: usize = 0;
    while i < m.len()
        invariant
            m@.len() <= 16,
            i <= m@.len(),
            acc == frobenius_sq(m@.subrange(0, i as int)),
            acc <= 65025 * i,
        decreases m@.len() - i,
    {
        proof {
            let next = m@.subrange(0, i + 1);
            assert(next.drop_last() =~= m@.subrange(0, i as int));
            assert(0 <= (m@[i as int] as int) * (m@[i as int] as int) <= 65025) by (nonlinear_arith)
                requires m@[i as int] <= 255;
        }
        let v = m[i] as u64;
        acc = acc + v * v;
        i = i + 1;
    }
    assert(m@.subrange(0, i as int) =~= m@);
    acc
}

/// The invariants `(‖A‖²_F, |det A|)` of the key matrix of one salt, or
/// `None` when that matrix is singular.
fn salted_invariants(seed: u64, salt: u64) -> (r: Option<(u64, u64)>)
    ensures
        det4(key_matrix(seed, salt)) == 0 ==> r is None,
        det4(key_matrix(seed, salt)) != 0 ==> (r matches Some(w) && w.0 as int == frobenius_sq(key_matrix(seed, salt))
            && w.1 as int == (if det4(key_matrix(seed, salt)) < 0 { -det4(key_matrix(seed, salt)) } else { det4(key_matrix(seed, salt)) })),
{
    let m = hyper_stream_exec((seed, seed ^ HYPER_MUL2, salt, HYPER_SALT_WORD ^ salt), 16);
    assert(m@ == key_matrix(seed, salt));
    let d = determinant(&m);
    if d == 0 {
        return None;
    }
    let fro = frobenius_norm_sq(&m);
    let ad: u64 = if d < 0 { (-d) as u64 } else { d as u64 };
    Some((fro, ad))
}

/// The singular-value invariants of the key matrix of `seed`, trying salts
/// in order; `DegenerateMatrix` when every salted matrix is singular.
pub fn svd_invariants_exec(seed: u64) -> (r: Result<(u64, u64), CipherError>)
    ensures
        match svd_invariants(seed) {
            Some(v) => r matches Ok(w) && w.0 as int == v.0 && w.1 as int == v.1,
            None => r == Err::<(u64, u64), CipherError>(CipherError::DegenerateMatrix),
        },
{
    let mut salt: u64 = 0;
    while salt < SALT_LIMIT
        invariant
            salt <= SALT_LIMIT,
            first_regular_salt(seed, 0) == first_regular_salt(seed, salt),
        decreases SALT_LIMIT - salt,
    {
        match salted_invariants(seed, salt) {
            Some(w) => {
                return Ok(w);
            },
            None => {},
        }
        salt = salt + 1;
    }
    Err(CipherError::DegenerateMatrix)
}

/// Masks every channel of `buf` with its own stream. Refused with
/// `DegenerateMatrix` exactly when every salted key matrix is singular.
pub fn hyper_encrypt(buf: &PixelBuffer, p: &ParameterSet) -> (r: Result<PixelBuffer, CipherError>)
    requires
        buf.wf(),
    ensures
        svd_invariants(p.seed) is Some ==> (r matches Ok(e) && hyper_encrypted(buf, *p, &e)),
        svd_invariants(p.seed) is None ==> r == Err::<PixelBuffer, CipherError>(CipherError::DegenerateMatrix),
{
    let (fro, ad) = match svd_invariants_exec(p.seed) {
        Ok(v) => v,
        Err(e) => return Err(e),
    };
    let n = buf.red.len();
    let red = add_mask_plane(&buf.red, &hyper_stream_exec((fro, ad, 0, HYPER_SALT_WORD ^ 0), n));
    let green = add_mask_plane(&buf.green, &hyper_stream_exec((fro, ad, 1, HYPER_SALT_WORD ^ 1), n));
    let blue = add_mask_plane(&buf.blue, &hyper_stream_exec((fro, ad, 2, HYPER_SALT_WORD ^ 2), n));
    let alpha = add_mask_plane(&buf.alpha, &hyper_stream_exec((fro, ad, 3, HYPER_SALT_WORD ^ 3), n));
    let r = PixelBuffer { width: buf.width, height: buf.height, red, green, blue, alpha };
    assert forall|c: Channel| #[trigger] r.plane(c) == add_mask(buf.plane(c), channel_mask(svd_invariants(p.seed).unwrap(), c, n as nat)) by {
        match c {
            Channel::Red => {},
            Channel::Green => {},
            Channel::Blue => {},
            Channel::Alpha => {},
        }
    }
    Ok(r)
}

/// Removes every channel's stream from `buf`. Refused with
/// `DegenerateMatrix` exactly when every salted key matrix is singular.
pub fn hyper_decrypt(buf: &PixelBuffer, p: &ParameterSet) -> (r: Result<PixelBuffer, CipherError>)
    requires
        buf.wf(),
    ensures
        svd_invariants(p.seed) is Some ==> (r matches Ok(d) && hyper_decrypted(buf, *p, &d)),
        svd_invariants(p.seed) is None ==> r == Err::<PixelBuffer, CipherError>(CipherError::DegenerateMatrix),
{
    let (fro, ad) = match svd_invariants_exec(p.seed) {
        Ok(v) => v,
        Err(e) => return Err(e),
    };
    let n = buf.red.len();
    let red = sub_mask_plane(&buf.red, &hyper_stream_exec((fro, ad, 0, HYPER_SALT_WORD ^ 0), n));
    let green = sub_mask_plane(&buf.green, &hyper_stream_exec((fro, ad, 1, HYPER_SALT_WORD ^ 1), n));
    let blue = sub_mask_plane(&buf.blue, &hyper_stream_exec((fro, ad, 2, HYPER_SALT_WORD ^ 2), n));
    let alpha = sub_mask_plane(&buf.alpha, &hyper_stream_exec((fro, ad, 3, HYPER_SALT_WORD ^ 3), n));
    let r = PixelBuffer { width: buf.width, height: buf.height, red, green, blue, alpha };
    assert forall|c: Channel| #[trigger] r.plane(c) == sub_mask(buf.plane(c), channel_mask(svd_invariants(p.seed).unwrap(), c, n as nat)) by {
        match c {
            Channel::Red => {},
            Channel::Green => {},
            Channel::Blue => {},
            Channel::Alpha => {},
        }
    }
    Ok(r)
}

/// Decrypting what the hyperchaotic cipher encrypted, with the same
/// parameters, gives back the image that was encrypted.
pub proof fn lemma_hyper_round_trip(b: &PixelBuffer, p: ParameterSet, e: &PixelBuffer, d: &PixelBuffer)
    requires
        b.wf(),
        hyper_encrypted(b, p, e),
        hyper_decrypted(e, p, d),
    ensures
        d.same_image(b),
{
    let inv = svd_invariants(p.seed).unwrap();
    assert forall|c: Channel| #[trigger] d.plane(c) == b.plane(c) by {
        lemma_mask_cancel(b.plane(c), channel_mask(inv, c, b.area() as nat));
    }
    assert(d.plane(Channel::Red) == b.plane(Channel::Red));
    assert(d.plane(Channel::Green) == b.plane(Channel::Green));
    assert(d.plane(Channel::Blue) == b.plane(Channel::Blue));
    assert(d.plane(Channel::Alpha) == b.plane(Channel::Alpha));
}

} // verus!
