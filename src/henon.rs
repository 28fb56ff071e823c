//! The Hénon cipher: a key-seeded Hénon orbit, run in 16-bit fixed point,
//! drives a pixel shuffle followed by a modular diffusion mask.
//!
//! The orbit is `x' = 1 − a·x² + y`, `y' = b·x`, every product rounded down to
//! the fixed-point grid. From state `WARMUP + 1 + i` on, state `i` of the
//! stream gives the mask byte of pixel `i` (an affine map of `x` from
//! `[−2, 2]` onto `[0, 255]`) and the draw that picks the partner of
//! position `i` in a Fisher–Yates shuffle of the pixel positions.
//!
//! Encryption permutes every plane by the shuffle and then adds the mask
//! modulo 256; decryption subtracts the mask and then applies the inverse
//! shuffle.
use vstd::prelude::*;

use crate::error::CipherError;
use crate::key::{ParameterSet, FIX_ONE};
use crate::perm::{add_mask, add_mask_plane, gather, gather_plane, is_inverse_pair, lemma_gather_cancel, lemma_mask_cancel, sub_mask, sub_mask_plane};
use crate::pixels::{Channel, PixelBuffer};

verus! {

/// Orbit states are kept within `[−2, 2]` on both axes (fixed point).
pub const HENON_BOUND: i64 = 131072;

/// Orbit states skipped before the stream starts.
pub const HENON_WARMUP: usize = 64;

/// One step of the fixed-point Hénon map.
pub open spec fn henon_next(a: int, b: int, s: (int, int)) -> (int, int) {
    (FIX_ONE - (a * ((s.0 * s.0) / FIX_ONE as int)) / FIX_ONE as int + s.1, (b * s.0) / FIX_ONE as int)
}

/// State `k` of the orbit that starts at `(p.henon_x0, p.henon_y0)`.
pub open spec fn henon_state(p: ParameterSet, k: nat) -> (int, int)
    decreases k,
{
    if k == 0 {
        (p.henon_x0 as int, p.henon_y0 as int)
    } else {
        henon_next(p.henon_a as int, p.henon_b as int, henon_state(p, (k - 1) as nat))
    }
}

pub open spec fn in_bounds(s: (int, int)) -> bool {
    -HENON_BOUND <= s.0 <= HENON_BOUND && -HENON_BOUND <= s.1 <= HENON_BOUND
}

/// The orbit stays bounded up to and including state `k`.
pub open spec fn henon_stable(p: ParameterSet, k: nat) -> bool {
    forall|j: nat| j <= k ==> #[trigger] in_bounds(henon_state(p, j))
}

/// `[−2, 2]` mapped affinely onto `[0, 255]`, rounding down.
pub open spec fn mask_byte(x: int) -> u8 {
    (((x + HENON_BOUND) * 255) / (2 * HENON_BOUND as int)) as u8
}

/// A non-negative integer that packs both coordinates of a state.
pub open spec fn draw_of(s: (int, int)) -> u64 {
    ((s.0 + HENON_BOUND) * 262145 + (s.1 + HENON_BOUND)) as u64
}

/// The stream state of pixel `i`.
pub open spec fn stream_state(p: ParameterSet, i: int) -> (int, int) {
    henon_state(p, (HENON_WARMUP + 1 + i) as nat)
}

/// The diffusion mask of an `n`-pixel plane.
pub open spec fn henon_mask(p: ParameterSet, n: nat) -> Seq<u8> {
    Seq::new(n, |i: int| mask_byte(stream_state(p, i).0))
}

/// The shuffle draws of an `n`-pixel plane.
pub open spec fn henon_draws(p: ParameterSet, n: nat) -> Seq<u64> {
    Seq::new(n, |i: int| draw_of(stream_state(p, i)))
}

pub open spec fn identity(n: nat) -> Seq<usize> {
    Seq::new(n, |i: int| i as usize)
}

/// The shuffled positions and their inverse after `t` Fisher–Yates steps:
/// step `t` swaps position `i = n − t` with position `d[i] mod (i + 1)`.
pub open spec fn shuffle_state(d: Seq<u64>, t: nat) -> (Seq<usize>, Seq<usize>)
    decreases t,
{
    if t == 0 {
        (identity(d.len()), identity(d.len()))
    } else {
        let prev = shuffle_state(d, (t - 1) as nat);
        let i = d.len() - t;
        let j = (d[i] % ((i + 1) as u64)) as int;
        let pi = prev.0[i];
        let pj = prev.0[j];
        (prev.0.update(i, pj).update(j, pi), prev.1.update(pi as int, j as usize).update(pj as int, i as usize))
    }
}

/// The number of Fisher–Yates steps on `n` positions.
pub open spec fn shuffle_steps(n: nat) -> nat {
    if n == 0 { 0 } else { (n - 1) as nat }
}

/// The Fisher–Yates shuffle of `0..d.len()` driven by the draws `d`.
pub open spec fn shuffle_of(d: Seq<u64>) -> Seq<usize> {
    shuffle_state(d, shuffle_steps(d.len())).0
}

/// The inverse of [`shuffle_of`].
pub open spec fn unshuffle_of(d: Seq<u64>) -> Seq<usize> {
    shuffle_state(d, shuffle_steps(d.len())).1
}

/// The gather map of encryption for an `n`-pixel plane.
pub open spec fn henon_perm(p: ParameterSet, n: nat) -> Seq<usize> {
    shuffle_of(henon_draws(p, n))
}

/// The gather map of decryption for an `n`-pixel plane.
pub open spec fn henon_unperm(p: ParameterSet, n: nat) -> Seq<usize> {
    unshuffle_of(henon_draws(p, n))
}

/// `r` is `b` shuffled and then masked, plane by plane.
pub open spec fn henon_encrypted(b: &PixelBuffer, p: ParameterSet, r: &PixelBuffer) -> bool {
    let n = b.area() as nat;
    &&& r.wf()
    &&& r.width == b.width
    &&& r.height == b.height
    &&& forall|c: Channel| #[trigger] r.plane(c) == add_mask(gather(b.plane(c), henon_perm(p, n)), henon_mask(p, n))
}

/// `r` is `b` unmasked and then unshuffled, plane by plane.
pub open spec fn henon_decrypted(b: &PixelBuffer, p: ParameterSet, r: &PixelBuffer) -> bool {
    let n = b.area() as nat;
    &&& r.wf()
    &&& r.width == b.width
    &&& r.height == b.height
    &&& forall|c: Channel| #[trigger] r.plane(c) == gather(sub_mask(b.plane(c), henon_mask(p, n)), henon_unperm(p, n))
}

proof fn lemma_floor_shift(v: int, k: int, d: int)
    requires
        d > 0,
    ensures
        (v + k * d) / d == v / d + k,
{
    vstd::arithmetic::div_mod::lemma_fundamental_div_mod(v, d);
    vstd::arithmetic::div_mod::lemma_mod_bound(v, d);
    assert(v + k * d == (v / d + k) * d + v % d) by (nonlinear_arith)
        requires v == d * (v / d) + v % d;
    vstd::arithmetic::div_mod::lemma_fundamental_div_mod_converse(v + k * d, d, v / d + k, v % d);
}

/// One step of the map, for coefficients in the derived ranges and a state
/// within bounds.
fn henon_step(a: i64, b: i64, x: i64, y: i64) -> (r: (i64, i64))
    requires
        0 < a < 131072,
        0 < b < 32768,
        in_bounds((x as int, y as int)),
    ensures
        (r.0 as int, r.1 as int) == henon_next(a as int, b as int, (x as int, y as int)),
{
    proof {
        assert(0 <= x * x <= 17179869184) by (nonlinear_arith)
            requires -131072 <= x <= 131072;
    }
    let xx: u64 = (x * x) as u64;
    let q: u64 = xx / 65536;
    proof {
        assert(q <= 262144);
        let ai = a as int;
        let qi = q as int;
        assert(ai * qi <= 131072 * 262144) by (nonlinear_arith)
            requires 0 < ai < 131072, 0 <= qi <= 262144;
    }
    let aq: u64 = (a as u64) * q;
    let t: u64 = aq / 65536;
    proof {
        assert(t <= 524288);
    }
    let nx: i64 = 65536 - (t as i64) + y;
    proof {
        assert(-4294967296 <= b * x <= 4294967296) by (nonlinear_arith)
            requires 0 < b < 32768, -131072 <= x <= 131072;
    }
    let bx: i64 = b * x;
    let shifted: u64 = (bx + 4294967296) as u64;
    let ny: i64 = (shifted / 65536) as i64 - 65536;
    proof {
        lemma_floor_shift(bx as int, 65536, 65536);
    }
    (nx, ny)
}

/// The mask byte of a bounded `x`.
fn mask_byte_exec(x: i64) -> (r: u8)
    requires
        -HENON_BOUND <= x <= HENON_BOUND,
    ensures
        r == mask_byte(x as int),
{
    let v: u64 = ((x + HENON_BOUND) as u64) * 255;
    (v / 262144) as u8
}

/// The draw of a bounded state.
fn draw_exec(x: i64, y: i64) -> (r: u64)
    requires
        in_bounds((x as int, y as int)),
    ensures
        r == draw_of((x as int, y as int)),
{
    ((x + HENON_BOUND) as u64) * 262145 + ((y + HENON_BOUND) as u64)
}

/// The mask and the shuffle draws of an `n`-pixel plane. Refused with
/// `UnstableParameters` exactly when the orbit leaves its bounds before the
/// last state the stream needs.
pub fn henon_stream(p: &ParameterSet, n: usize) -> (r: Result<(Vec<u8>, Vec<u64>), CipherError>)
    requires
        p.in_range(),
    ensures
        henon_stable(*p, (HENON_WARMUP + n) as nat) ==> (r matches Ok(v) && v.0@ == henon_mask(*p, n as nat) && v.1@ == henon_draws(*p, n as nat)),
        !henon_stable(*p, (HENON_WARMUP + n) as nat) ==> r == Err::<(Vec<u8>, Vec<u64>), CipherError>(CipherError::UnstableParameters),
{
    let ghost pp = *p;
    let mut x: i64 = p.henon_x0;
    let mut y: i64 = p.henon_y0;
    assert(in_bounds(henon_state(pp, 0)));
    let mut k: usize = 0;
    while k < HENON_WARMUP
        invariant
            pp == *p,
            p.in_range(),
            k <= HENON_WARMUP,
            (x as int, y as int) == henon_state(pp, k as nat),
            forall|j: nat| j <= k ==> #[trigger] in_bounds(henon_state(pp, j)),
        decreases HENON_WARMUP - k,
    {
        let s = henon_step(p.henon_a, p.henon_b, x, y);
        x = s.0;
        y = s.1;
        if x < -HENON_BOUND || x > HENON_BOUND || y < -HENON_BOUND || y > HENON_BOUND {
            assert(!in_bounds(henon_state(pp, (k + 1) as nat)));
            return Err(CipherError::UnstableParameters);
        }
        k = k + 1;
        assert forall|j: nat| j <= k implies #[trigger] in_bounds(henon_state(pp, j)) by {
            if j < k {
            }
        }
    }
    let mut mask: Vec<u8> = Vec::with_capacity(n);
    let mut draws: Vec<u64> = Vec::with_capacity(n);
    let mut i: usize = 0;
    while i < n
        invariant
            pp == *p,
            p.in_range(),
            i <= n,
            (x as int, y as int) == henon_state(pp, (HENON_WARMUP + i) as nat),
            forall|j: nat| j <= HENON_WARMUP + i ==> #[trigger] in_bounds(henon_state(pp, j)),
            mask@ == henon_mask(pp, n as nat).subrange(0, i as int),
            draws@ == henon_draws(pp, n as nat).subrange(0, i as int),
        decreases n - i,
    {
        let s = henon_step(p.henon_a, p.henon_b, x, y);
        x = s.0;
        y = s.1;
        if x < -HENON_BOUND || x > HENON_BOUND || y < -HENON_BOUND || y > HENON_BOUND {
            assert(!in_bounds(henon_state(pp, (HENON_WARMUP + i + 1) as nat)));
            return Err(CipherError::UnstableParameters);
        }
        mask.push(mask_byte_exec(x));
        draws.push(draw_exec(x, y));
        i = i + 1;
        assert forall|j: nat| j <= HENON_WARMUP + i implies #[trigger] in_bounds(henon_state(pp, j)) by {
            if j < HENON_WARMUP + i {
            }
        }
        assert(mask@ =~= henon_mask(pp, n as nat).subrange(0, i as int));
        assert(draws@ =~= henon_draws(pp, n as nat).subrange(0, i as int));
    }
    assert(mask@ =~= henon_mask(pp, n as nat));
    assert(draws@ =~= henon_draws(pp, n as nat));
    Ok((mask, draws))
}

/// Every prefix of the shuffle keeps a pair of mutually inverse
/// permutations.
pub proof fn lemma_shuffle_pair(d: Seq<u64>, t: nat)
    requires
        t <= shuffle_steps(d.len()),
        d.len() <= usize::MAX,
    ensures
        is_inverse_pair(shuffle_state(d, t).0, shuffle_state(d, t).1, d.len() as int),
    decreases t,
{
    let n = d.len() as int;
    if t == 0 {
        let id = identity(d.len());
        assert forall|k: int| 0 <= k < n implies #[trigger] id[k] < n && id[id[k] as int] == k by {
            assert(id[k] as int == k);
        }
        assert(is_inverse_pair(id, id, n));
    } else {
        lemma_shuffle_pair(d, (t - 1) as nat);
        let prev = shuffle_state(d, (t - 1) as nat);
        let i = n - t;
        let j = (d[i] % ((i + 1) as u64)) as int;
        assert((i + 1) as u64 == i + 1);
        vstd::arithmetic::div_mod::lemma_mod_bound(d[i] as int, i + 1);
        let p0 = prev.0;
        let q0 = prev.1;
        let pi = p0[i];
        let pj = p0[j];
        let p1 = p0.update(i, pj).update(j, pi);
        let q1 = q0.update(pi as int, j as usize).update(pj as int, i as usize);
        assert(0 <= j <= i < n);
        assert(shuffle_state(d, t) == (p1, q1));
        assert forall|k: int| 0 <= k < n implies #[trigger] p1[k] < n && q1[p1[k] as int] == k by {
            if k != i && k != j {
                assert(p1[k] == p0[k]);
                assert(p0[k] != pi && p0[k] != pj);
            }
        }
        assert forall|v: int| 0 <= v < n implies #[trigger] q1[v] < n && p1[q1[v] as int] == v by {
            if v != pi && v != pj {
                assert(q1[v] == q0[v]);
                assert(q0[v] != i && q0[v] != j);
            }
        }
    }
}

/// The Fisher–Yates shuffle driven by `d` and its inverse.
pub fn shuffle(d: &Vec<u64>) -> (r: (Vec<usize>, Vec<usize>))
    ensures
        r.0@ == shuffle_of(d@),
        r.1@ == unshuffle_of(d@),
        is_inverse_pair(r.0@, r.1@, d@.len() as int),
{
    let n = d.len();
    let mut p: Vec<usize> = Vec::with_capacity(n);
    let mut q: Vec<usize> = Vec::with_capacity(n);
    let mut k: usize = 0;
    while k < n
        invariant
            n == d@.len(),
            k <= n,
            p@ == identity(n as nat).subrange(0, k as int),
            q@ == identity(n as nat).subrange(0, k as int),
        decreases n - k,
    {
        p.push(k);
        q.push(k);
        k = k + 1;
        assert(p@ =~= identity(n as nat).subrange(0, k as int));
        assert(q@ =~= identity(n as nat).subrange(0, k as int));
    }
    assert(p@ =~= identity(n as nat));
    assert(q@ =~= identity(n as nat));
    let steps: usize = if n == 0 { 0 } else { n - 1 };
    let mut t: usize = 0;
    while t < steps
        invariant
            n == d@.len(),
            steps == shuffle_steps(n as nat),
            t <= steps,
            (p@, q@) == shuffle_state(d@, t as nat),
        decreases steps - t,
    {
        proof {
            lemma_shuffle_pair(d@, t as nat);
        }
        let i: usize = n - 1 - t;
        let j: usize = (d[i] % ((i + 1) as u64)) as usize;
        let pi = p[i];
        let pj = p[j];
        p.set(i, pj);
        p.set(j, pi);
        q.set(pi, j);
        q.set(pj, i);
        t = t + 1;
    }
    proof {
        lemma_shuffle_pair(d@, steps as nat);
    }
    (p, q)
}

/// Shuffles and then masks every plane of `buf` with the Hénon stream of
/// `p`. Refused with `UnstableParameters` exactly when the orbit leaves its
/// bounds.
pub fn henon_encrypt(buf: &PixelBuffer, p: &ParameterSet) -> (r: Result<PixelBuffer, CipherError>)
    requires
        buf.wf(),
        p.in_range(),
    ensures
        henon_stable(*p, (HENON_WARMUP + buf.area()) as nat) ==> (r matches Ok(e) && henon_encrypted(buf, *p, &e)),
        !henon_stable(*p, (HENON_WARMUP + buf.area()) as nat) ==> r == Err::<PixelBuffer, CipherError>(CipherError::UnstableParameters),
{
    let n = buf.red.len();
    let (mask, draws) = match henon_stream(p, n) {
        Ok(v) => v,
        Err(e) => return Err(e),
    };
    let (perm, _inv) = shuffle(&draws);
    let red = add_mask_plane(&gather_plane(&buf.red, &perm), &mask);
    let green = add_mask_plane(&gather_plane(&buf.green, &perm), &mask);
    let blue = add_mask_plane(&gather_plane(&buf.blue, &perm), &mask);
    let alpha = add_mask_plane(&gather_plane(&buf.alpha, &perm), &mask);
    let r = PixelBuffer { width: buf.width, height: buf.height, red, green, blue, alpha };
    assert forall|c: Channel| #[trigger] r.plane(c) == add_mask(gather(buf.plane(c), henon_perm(*p, n as nat)), henon_mask(*p, n as nat)) by {
        match c {
            Channel::Red => {},
            Channel::Green => {},
            Channel::Blue => {},
            Channel::Alpha => {},
        }
    }
    Ok(r)
}

/// Unmasks and then unshuffles every plane of `buf` with the Hénon stream
/// of `p`. Refused with `UnstableParameters` exactly when the orbit leaves
/// its bounds.
pub fn henon_decrypt(buf: &PixelBuffer, p: &ParameterSet) -> (r: Result<PixelBuffer, CipherError>)
    requires
        buf.wf(),
        p.in_range(),
    ensures
        henon_stable(*p, (HENON_WARMUP + buf.area()) as nat) ==> (r matches Ok(d) && henon_decrypted(buf, *p, &d)),
        !henon_stable(*p, (HENON_WARMUP + buf.area()) as nat) ==> r == Err::<PixelBuffer, CipherError>(CipherError::UnstableParameters),
{
    let n = buf.red.len();
    let (mask, draws) = match henon_stream(p, n) {
        Ok(v) => v,
        Err(e) => return Err(e),
    };
    let (_perm, inv) = shuffle(&draws);
    let red = gather_plane(&sub_mask_plane(&buf.red, &mask), &inv);
    let green = gather_plane(&sub_mask_plane(&buf.green, &mask), &inv);
    let blue = gather_plane(&sub_mask_plane(&buf.blue, &mask), &inv);
    let alpha = gather_plane(&sub_mask_plane(&buf.alpha, &mask), &inv);
    let r = PixelBuffer { width: buf.width, height: buf.height, red, green, blue, alpha };
    assert forall|c: Channel| #[trigger] r.plane(c) == gather(sub_mask(buf.plane(c), henon_mask(*p, n as nat)), henon_unperm(*p, n as nat)) by {
        match c {
            Channel::Red => {},
            Channel::Green => {},
            Channel::Blue => {},
            Channel::Alpha => {},
        }
    }
    Ok(r)
}

/// The permutation layer of the Hénon cipher is a bijection of the pixel
/// positions: its gather map has an inverse.
pub proof fn lemma_henon_perm_bijective(p: ParameterSet, n: nat)
    requires
        n <= usize::MAX,
    ensures
        is_inverse_pair(henon_perm(p, n), henon_unperm(p, n), n as int),
{
    let d = henon_draws(p, n);
    lemma_shuffle_pair(d, shuffle_steps(d.len()));
}

/// Decrypting what the Hénon cipher encrypted, with the same parameters,
/// gives back the image that was encrypted.
pub proof fn lemma_henon_round_trip(b: &PixelBuffer, p: ParameterSet, e: &PixelBuffer, d: &PixelBuffer)
    requires
        b.wf(),
        henon_encrypted(b, p, e),
        henon_decrypted(e, p, d),
    ensures
        d.same_image(b),
{
    let n = b.area() as nat;
    lemma_henon_perm_bijective(p, n);
    assert forall|c: Channel| #[trigger] d.plane(c) == b.plane(c) by {
        let g = gather(b.plane(c), henon_perm(p, n));
        lemma_mask_cancel(g, henon_mask(p, n));
        lemma_gather_cancel(b.plane(c), henon_perm(p, n), henon_unperm(p, n));
    }
    assert(d.plane(Channel::Red) == b.plane(Channel::Red));
    assert(d.plane(Channel::Green) == b.plane(Channel::Green));
    assert(d.plane(Channel::Blue) == b.plane(Channel::Blue));
    assert(d.plane(Channel::Alpha) == b.plane(Channel::Alpha));
}

} // verus!
