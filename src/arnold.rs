//! The discrete Arnold cat map on a square lattice.
//!
//! Policy for other shapes: a buffer that is not square is refused with
//! `UnsupportedDimensions`; nothing is padded or cropped. A 1×1 buffer is
//! left as it is, since every coordinate is taken modulo 1.
//!
//! Decryption applies the inverse matrix `[[ab+1, -b], [-a, 1]]` for as many
//! rounds as encryption applied the forward matrix `[[1, b], [a, ab+1]]`.
use vstd::prelude::*;

use crate::error::CipherError;
use crate::key::ParameterSet;
use crate::perm::{gather_iter, gather_rounds, is_inverse_pair, lemma_gather_iter_cancel};
use crate::pixels::{Channel, PixelBuffer};

verus! {

/// Where the cat map sends the pixel with row-major index `i` on an `s × s`
/// lattice: `(x, y) ↦ ((x + b·y) mod s, (a·x + (ab+1)·y) mod s)`.
pub open spec fn cat_index(i: int, a: int, b: int, s: int) -> int {
    let x = i % s;
    let y = i / s;
    ((a * x + (a * b + 1) * y) % s) * s + (x + b * y) % s
}

/// The inverse map: `(x, y) ↦ (((ab+1)·x − b·y) mod s, (y − a·x) mod s)`.
pub open spec fn cat_inv_index(i: int, a: int, b: int, s: int) -> int {
    let x = i % s;
    let y = i / s;
    ((y - a * x) % s) * s + ((a * b + 1) * x - b * y) % s
}

/// One encryption round gathers by this map: sample `i` of the result is
/// the sample that the cat map moves to `i`.
pub open spec fn cat_gather(a: int, b: int, s: int) -> Seq<usize> {
    Seq::new((s * s) as nat, |i: int| cat_inv_index(i, a, b, s) as usize)
}

/// One decryption round gathers by the forward map.
pub open spec fn cat_scatter(a: int, b: int, s: int) -> Seq<usize> {
    Seq::new((s * s) as nat, |i: int| cat_index(i, a, b, s) as usize)
}

/// Cat map coefficient `a` for side `s`: in `1..s`, so never a multiple of
/// `s` (1 for the 1×1 lattice).
pub open spec fn cat_coeff_a(seed: u64, s: int) -> int {
    if s <= 1 { 1 } else { 1 + (seed as int) % (s - 1) }
}

/// Cat map coefficient `b` for side `s`: in `1..s`, from the seed's bits
/// above the lowest byte.
pub open spec fn cat_coeff_b(seed: u64, s: int) -> int {
    if s <= 1 { 1 } else { 1 + ((seed >> 8u64) as int) % (s - 1) }
}

/// A 2×2 matrix `[[m.0, m.1], [m.2, m.3]]`.
pub type Mat2 = (int, int, int, int);

/// The product of two 2×2 matrices, entries reduced modulo `s`.
pub open spec fn mat_mul_mod(x: Mat2, y: Mat2, s: int) -> Mat2 {
    (
        (x.0 * y.0 + x.1 * y.2) % s,
        (x.0 * y.1 + x.1 * y.3) % s,
        (x.2 * y.0 + x.3 * y.2) % s,
        (x.2 * y.1 + x.3 * y.3) % s,
    )
}

/// The `k`-th power of the cat matrix `[[1, b], [a, ab+1]]` modulo `s`.
pub open spec fn cat_matrix_pow(a: int, b: int, s: int, k: nat) -> Mat2
    decreases k,
{
    if k == 0 {
        (1int % s, 0int, 0int, 1int % s)
    } else {
        mat_mul_mod(cat_matrix_pow(a, b, s, (k - 1) as nat), (1int % s, b % s, a % s, (a * b + 1) % s), s)
    }
}

/// The number of rounds on side `s`: the key's round count, plus one when
/// that many rounds would bring every pixel back to its place (the count is
/// a multiple of the map's period). One more round is then never the
/// identity, as `b` is not a multiple of `s`.
pub open spec fn cat_rounds(p: ParameterSet, s: int) -> nat {
    if s > 1 && cat_matrix_pow(cat_coeff_a(p.seed, s), cat_coeff_b(p.seed, s), s, p.rounds as nat) == (1int, 0int, 0int, 1int) {
        (p.rounds + 1) as nat
    } else {
        p.rounds as nat
    }
}

/// `r` is `b` with `cat_rounds` cat map rounds applied to every plane.
pub open spec fn arnold_encrypted(b: &PixelBuffer, p: ParameterSet, r: &PixelBuffer) -> bool {
    &&& r.wf()
    &&& r.width == b.width
    &&& r.height == b.height
    &&& forall|c: Channel| #[trigger] r.plane(c) == gather_iter(
        b.plane(c),
        cat_gather(cat_coeff_a(p.seed, b.width as int), cat_coeff_b(p.seed, b.width as int), b.width as int),
        cat_rounds(p, b.width as int),
    )
}

/// `r` is `b` with `cat_rounds` inverse cat map rounds applied to every plane.
pub open spec fn arnold_decrypted(b: &PixelBuffer, p: ParameterSet, r: &PixelBuffer) -> bool {
    &&& r.wf()
    &&& r.width == b.width
    &&& r.height == b.height
    &&& forall|c: Channel| #[trigger] r.plane(c) == gather_iter(
        b.plane(c),
        cat_scatter(cat_coeff_a(p.seed, b.width as int), cat_coeff_b(p.seed, b.width as int), b.width as int),
        cat_rounds(p, b.width as int),
    )
}

proof fn lemma_coords(i: int, s: int)
    requires
        s > 0,
        0 <= i < s * s,
    ensures
        0 <= i % s < s,
        0 <= i / s < s,
        i == (i / s) * s + i % s,
{
    vstd::arithmetic::div_mod::lemma_fundamental_div_mod(i, s);
    vstd::arithmetic::div_mod::lemma_mod_bound(i, s);
    assert(i / s >= 0) by {
        vstd::arithmetic::div_mod::lemma_div_pos_is_pos(i, s);
    }
    assert(i == s * (i / s) + i % s);
    assert(i / s < s) by (nonlinear_arith)
        requires
            i == s * (i / s) + i % s,
            0 <= i % s,
            i < s * s,
            s > 0,
    ;
    assert(s * (i / s) == (i / s) * s) by (nonlinear_arith);
}

proof fn lemma_index_parts(x: int, y: int, s: int)
    requires
        s > 0,
        0 <= x < s,
        0 <= y < s,
    ensures
        (y * s + x) % s == x,
        (y * s + x) / s == y,
        0 <= y * s + x < s * s,
{
    vstd::arithmetic::div_mod::lemma_fundamental_div_mod_converse(y * s + x, s, y, x);
    assert(0 <= y * s + x < s * s) by (nonlinear_arith)
        requires
            0 <= x < s,
            0 <= y < s,
    ;
}

/// Coefficients congruent modulo `s` give congruent linear forms.
proof fn lemma_lin_congr(k1: int, m1: int, u: int, k2: int, m2: int, v: int, s: int)
    requires
        s > 0,
        k1 % s == m1 % s,
        k2 % s == m2 % s,
    ensures
        (k1 * u + k2 * v) % s == (m1 * u + m2 * v) % s,
{
    vstd::arithmetic::div_mod::lemma_mul_mod_noop_left(k1, u, s);
    vstd::arithmetic::div_mod::lemma_mul_mod_noop_left(m1, u, s);
    vstd::arithmetic::div_mod::lemma_mul_mod_noop_left(k2, v, s);
    vstd::arithmetic::div_mod::lemma_mul_mod_noop_left(m2, v, s);
    vstd::arithmetic::div_mod::lemma_add_mod_noop(k1 * u, k2 * v, s);
    vstd::arithmetic::div_mod::lemma_add_mod_noop(m1 * u, m2 * v, s);
}

/// Reducing the arguments of a linear form modulo `s` does not change it.
proof fn lemma_lin_reduce(k1: int, u: int, k2: int, v: int, s: int)
    requires
        s > 0,
    ensures
        (k1 * (u % s) + k2 * (v % s)) % s == (k1 * u + k2 * v) % s,
{
    vstd::arithmetic::div_mod::lemma_mul_mod_noop_right(k1, u, s);
    vstd::arithmetic::div_mod::lemma_mul_mod_noop_right(k2, v, s);
    vstd::arithmetic::div_mod::lemma_add_mod_noop(k1 * (u % s), k2 * (v % s), s);
    vstd::arithmetic::div_mod::lemma_add_mod_noop(k1 * u, k2 * v, s);
}

/// The forward and inverse maps undo each other on the lattice.
pub proof fn lemma_cat_inverse(i: int, a: int, b: int, s: int)
    requires
        s > 0,
        0 <= i < s * s,
    ensures
        0 <= cat_index(i, a, b, s) < s * s,
        0 <= cat_inv_index(i, a, b, s) < s * s,
        cat_inv_index(cat_index(i, a, b, s), a, b, s) == i,
        cat_index(cat_inv_index(i, a, b, s), a, b, s) == i,
{
    let x = i % s;
    let y = i / s;
    let c = a * b + 1;
    lemma_coords(i, s);
    vstd::arithmetic::div_mod::lemma_mod_bound(x + b * y, s);
    vstd::arithmetic::div_mod::lemma_mod_bound(a * x + c * y, s);
    vstd::arithmetic::div_mod::lemma_mod_bound(c * x - b * y, s);
    vstd::arithmetic::div_mod::lemma_mod_bound(y - a * x, s);
    // forward, then inverse
    let fx = (x + b * y) % s;
    let fy = (a * x + c * y) % s;
    lemma_index_parts(fx, fy, s);
    lemma_lin_reduce(c, x + b * y, -b, a * x + c * y, s);
    assert(c * (x + b * y) + (-b) * (a * x + c * y) == x) by (nonlinear_arith)
        requires c == a * b + 1;
    assert(c * fx - b * fy == c * fx + (-b) * fy) by (nonlinear_arith);
    lemma_lin_reduce(1, a * x + c * y, -a, x + b * y, s);
    assert(1 * (a * x + c * y) + (-a) * (x + b * y) == y) by (nonlinear_arith)
        requires c == a * b + 1;
    assert(fy - a * fx == 1 * fy + (-a) * fx) by (nonlinear_arith);
    vstd::arithmetic::div_mod::lemma_small_mod(x as nat, s as nat);
    vstd::arithmetic::div_mod::lemma_small_mod(y as nat, s as nat);
    // inverse, then forward
    let gx = (c * x - b * y) % s;
    let gy = (y - a * x) % s;
    lemma_index_parts(gx, gy, s);
    lemma_lin_reduce(1, c * x - b * y, b, y - a * x, s);
    assert(1 * (c * x - b * y) + b * (y - a * x) == x) by (nonlinear_arith)
        requires c == a * b + 1;
    assert(gx + b * gy == 1 * gx + b * gy) by (nonlinear_arith);
    lemma_lin_reduce(a, c * x - b * y, c, y - a * x, s);
    assert(a * (c * x - b * y) + c * (y - a * x) == y) by (nonlinear_arith)
        requires c == a * b + 1;
}

/// `(k1·u + k2·v) mod s` without overflow, for reduced coefficients and
/// coordinates.
fn lin_mod(k1: usize, u: usize, k2: usize, v: usize, s: usize) -> (r: usize)
    requires
        0 < s,
        s * s <= usize::MAX,
        k1 < s,
        k2 < s,
        u < s,
        v < s,
    ensures
        r == (k1 * u + k2 * v) % (s as int),
        r < s,
{
    proof {
        assert(k1 * u < s * s && k2 * v < s * s) by (nonlinear_arith)
            requires k1 < s, k2 < s, u < s, v < s;
        assert(2 * s <= usize::MAX) by (nonlinear_arith)
            requires 0 < s, s * s <= usize::MAX;
        vstd::arithmetic::div_mod::lemma_add_mod_noop(k1 * u, k2 * v, s as int);
    }
    ((k1 * u) % s + (k2 * v) % s) % s
}

/// `(s − k mod s) mod s`, the reduced representative of `−k`.
fn neg_mod(k: usize, s: usize) -> (r: usize)
    requires
        0 < s,
    ensures
        r < s,
        r as int % s as int == (-k) % (s as int),
{
    let km = k % s;
    let r = (s - km) % s;
    proof {
        let si = s as int;
        vstd::arithmetic::div_mod::lemma_fundamental_div_mod(k as int, si);
        vstd::arithmetic::div_mod::lemma_mod_twice(si - km, si);
        assert(si - km == si * (k as int / si + 1) + (-k)) by (nonlinear_arith)
            requires k == si * (k as int / si) + km;
        vstd::arithmetic::div_mod::lemma_mod_multiples_vanish(k as int / si + 1, -k, si);
    }
    r
}

/// The cat map coefficients of a seed for side `s`.
fn cat_coefficients(seed: u64, s: usize) -> (r: (usize, usize))
    requires
        s > 0,
    ensures
        r.0 == cat_coeff_a(seed, s as int),
        r.1 == cat_coeff_b(seed, s as int),
        1 <= r.0 <= s,
        1 <= r.1 <= s,
        s > 1 ==> r.0 < s && r.1 < s,
{
    if s <= 1 {
        return (1, 1);
    }
    let m: u64 = (s - 1) as u64;
    let a = (1 + seed % m) as usize;
    let b = (1 + (seed >> 8u64) % m) as usize;
    (a, b)
}

/// The round count `cat_rounds` for side `s` and coefficients `a`, `b`.
fn cat_round_count(p: &ParameterSet, a: usize, b: usize, s: usize) -> (r: usize)
    requires
        p.in_range(),
        0 < s,
        s * s <= usize::MAX,
        a == cat_coeff_a(p.seed, s as int),
        b == cat_coeff_b(p.seed, s as int),
        1 <= a <= s,
        1 <= b <= s,
        s > 1 ==> a < s && b < s,
    ensures
        r == cat_rounds(*p, s as int),
{
    if s == 1 {
        return p.rounds;
    }
    let ghost si = s as int;
    let ghost ai = a as int;
    let ghost bi = b as int;
    assert(a * b + 1 <= usize::MAX) by (nonlinear_arith)
        requires
            1 <= a < s,
            1 <= b < s,
            s * s <= usize::MAX,
    ;
    let m0 = 1 % s;
    let m1 = b % s;
    let m2 = a % s;
    let m3 = (a * b + 1) % s;
    let mut x0: usize = 1 % s;
    let mut x1: usize = 0;
    let mut x2: usize = 0;
    let mut x3: usize = 1 % s;
    let mut k: usize = 0;
    while k < p.rounds
        invariant
            p.in_range(),
            si == s,
            ai == a,
            bi == b,
            1 < s,
            s * s <= usize::MAX,
            m0 == 1int % si && m1 == bi % si && m2 == ai % si && m3 == (ai * bi + 1) % si,
            m0 < s && m1 < s && m2 < s && m3 < s,
            x0 < s && x1 < s && x2 < s && x3 < s,
            k <= p.rounds,
            (x0 as int, x1 as int, x2 as int, x3 as int) == cat_matrix_pow(ai, bi, si, k as nat),
        decreases p.rounds - k,
    {
        let y0 = lin_mod(x0, m0, x1, m2, s);
        let y1 = lin_mod(x0, m1, x1, m3, s);
        let y2 = lin_mod(x2, m0, x3, m2, s);
        let y3 = lin_mod(x2, m1, x3, m3, s);
        x0 = y0;
        x1 = y1;
        x2 = y2;
        x3 = y3;
        k = k + 1;
    }
    if x0 == 1 && x1 == 0 && x2 == 0 && x3 == 1 {
        p.rounds + 1
    } else {
        p.rounds
    }
}

/// The gather map of one encryption round and of one decryption round.
fn cat_maps(a: usize, b: usize, s: usize) -> (r: (Vec<usize>, Vec<usize>))
    requires
        0 < s,
        s * s <= usize::MAX,
        1 <= a <= s,
        1 <= b <= s,
        s > 1 ==> a < s && b < s,
    ensures
        r.0@ == cat_gather(a as int, b as int, s as int),
        r.1@ == cat_scatter(a as int, b as int, s as int),
        is_inverse_pair(r.0@, r.1@, s * s),
{
    let n: usize = s * s;
    assert(a * b + 1 <= usize::MAX) by (nonlinear_arith)
        requires
            1 <= a <= s,
            1 <= b <= s,
            s > 1 ==> a < s && b < s,
            s * s <= usize::MAX,
    ;
    let one = 1 % s;
    let am = a % s;
    let bm = b % s;
    let cm = (a * b + 1) % s;
    let nam = neg_mod(a, s);
    let nbm = neg_mod(b, s);
    let ghost ai = a as int;
    let ghost bi = b as int;
    let ghost si = s as int;
    proof {
        vstd::arithmetic::div_mod::lemma_mod_twice(1, si);
        vstd::arithmetic::div_mod::lemma_mod_twice(ai, si);
        vstd::arithmetic::div_mod::lemma_mod_twice(bi, si);
        vstd::arithmetic::div_mod::lemma_mod_twice(ai * bi + 1, si);
    }
    let mut fwd: Vec<usize> = Vec::with_capacity(n);
    let mut back: Vec<usize> = Vec::with_capacity(n);
    let mut i: usize = 0;
    while i < n
        invariant
            n == s * s,
            0 < s,
            s * s <= usize::MAX,
            si == s,
            ai == a,
            bi == b,
            one < s && one as int % si == 1int % si,
            am < s && am as int % si == ai % si,
            bm < s && bm as int % si == bi % si,
            cm < s && cm as int % si == (ai * bi + 1) % si,
            nam < s && nam as int % si == (-ai) % si,
            nbm < s && nbm as int % si == (-bi) % si,
            i <= n,
            fwd@ == cat_gather(ai, bi, si).subrange(0, i as int),
            back@ == cat_scatter(ai, bi, si).subrange(0, i as int),
        decreases n - i,
    {
        let x = i % s;
        let y = i / s;
        proof {
            lemma_coords(i as int, si);
        }
        // inverse image of `i`
        let gx = lin_mod(cm, x, nbm, y, s);
        let gy = lin_mod(nam, x, one, y, s);
        // forward image of `i`
        let fx = lin_mod(one, x, bm, y, s);
        let fy = lin_mod(am, x, cm, y, s);
        proof {
            let xi = x as int;
            let yi = y as int;
            lemma_lin_congr(cm as int, ai * bi + 1, xi, nbm as int, -bi, yi, si);
            lemma_lin_congr(nam as int, -ai, xi, one as int, 1, yi, si);
            lemma_lin_congr(one as int, 1, xi, bm as int, bi, yi, si);
            lemma_lin_congr(am as int, ai, xi, cm as int, ai * bi + 1, yi, si);
            assert((ai * bi + 1) * xi + (-bi) * yi == (ai * bi + 1) * xi - bi * yi) by (nonlinear_arith);
            assert((-ai) * xi + 1 * yi == yi - ai * xi) by (nonlinear_arith);
            assert(1 * xi + bi * yi == xi + bi * yi) by (nonlinear_arith);
            assert(gy * si + gx < si * si && fy * si + fx < si * si) by (nonlinear_arith)
                requires gx < si, gy < si, fx < si, fy < si;
        }
        fwd.push(gy * s + gx);
        back.push(fy * s + fx);
        i = i + 1;
        assert(fwd@ =~= cat_gather(ai, bi, si).subrange(0, i as int));
        assert(back@ =~= cat_scatter(ai, bi, si).subrange(0, i as int));
    }
    assert(fwd@ =~= cat_gather(ai, bi, si));
    assert(back@ =~= cat_scatter(ai, bi, si));
    proof {
        lemma_cat_pair(ai, bi, si);
    }
    (fwd, back)
}

/// The gather maps of encryption and decryption rounds are mutually inverse
/// permutations of the lattice.
pub proof fn lemma_cat_pair(a: int, b: int, s: int)
    requires
        s > 0,
        s * s <= usize::MAX,
    ensures
        is_inverse_pair(cat_gather(a, b, s), cat_scatter(a, b, s), s * s),
{
    let g = cat_gather(a, b, s);
    let h = cat_scatter(a, b, s);
    assert(s * s >= 0) by (nonlinear_arith);
    assert forall|k: int| 0 <= k < s * s implies #[trigger] g[k] < s * s && h[g[k] as int] == k by {
        lemma_cat_inverse(k, a, b, s);
        assert(g[k] as int == cat_inv_index(k, a, b, s));
    }
    assert forall|k: int| 0 <= k < s * s implies #[trigger] h[k] < s * s && g[h[k] as int] == k by {
        lemma_cat_inverse(k, a, b, s);
        assert(h[k] as int == cat_index(k, a, b, s));
    }
}

/// Applies `rounds` gather steps by `map` to every plane of `buf`.
fn gather_buffer(buf: &PixelBuffer, map: &Vec<usize>, rounds: usize) -> (r: PixelBuffer)
    requires
        buf.wf(),
        map@.len() == buf.area(),
        forall|i: int| 0 <= i < map@.len() ==> #[trigger] map@[i] < buf.area(),
    ensures
        r.wf(),
        r.width == buf.width,
        r.height == buf.height,
        forall|c: Channel| #[trigger] r.plane(c) == gather_iter(buf.plane(c), map@, rounds as nat),
{
    let red = gather_rounds(&buf.red, map, rounds);
    let green = gather_rounds(&buf.green, map, rounds);
    let blue = gather_rounds(&buf.blue, map, rounds);
    let alpha = gather_rounds(&buf.alpha, map, rounds);
    let r = PixelBuffer { width: buf.width, height: buf.height, red, green, blue, alpha };
    assert forall|c: Channel| #[trigger] r.plane(c) == gather_iter(buf.plane(c), map@, rounds as nat) by {
        match c {
            Channel::Red => {},
            Channel::Green => {},
            Channel::Blue => {},
            Channel::Alpha => {},
        }
    }
    r
}

/// Scrambles a square buffer with `cat_rounds` rounds of the cat map with
/// coefficients `cat_coeff_a`, `cat_coeff_b` of `p.seed` and the side. A buffer that is not square is
/// refused with `UnsupportedDimensions`.
pub fn arnold_encrypt(buf: &PixelBuffer, p: &ParameterSet) -> (r: Result<PixelBuffer, CipherError>)
    requires
        buf.wf(),
        p.in_range(),
    ensures
        buf.width != buf.height ==> r == Err::<PixelBuffer, CipherError>(CipherError::UnsupportedDimensions),
        buf.width == buf.height ==> (r matches Ok(e) && arnold_encrypted(buf, *p, &e)),
{
    if buf.width != buf.height {
        return Err(CipherError::UnsupportedDimensions);
    }
    let (a, b) = cat_coefficients(p.seed, buf.width);
    let rounds = cat_round_count(p, a, b, buf.width);
    let (fwd, _back) = cat_maps(a, b, buf.width);
    Ok(gather_buffer(buf, &fwd, rounds))
}

/// Restores a square buffer scrambled by [`arnold_encrypt`] with the same
/// parameters, by as many rounds of the inverse map. A buffer that is not
/// square is refused with `UnsupportedDimensions`.
pub fn arnold_decrypt(buf: &PixelBuffer, p: &ParameterSet) -> (r: Result<PixelBuffer, CipherError>)
    requires
        buf.wf(),
        p.in_range(),
    ensures
        buf.width != buf.height ==> r == Err::<PixelBuffer, CipherError>(CipherError::UnsupportedDimensions),
        buf.width == buf.height ==> (r matches Ok(d) && arnold_decrypted(buf, *p, &d)),
{
    if buf.width != buf.height {
        return Err(CipherError::UnsupportedDimensions);
    }
    let (a, b) = cat_coefficients(p.seed, buf.width);
    let rounds = cat_round_count(p, a, b, buf.width);
    let (_fwd, back) = cat_maps(a, b, buf.width);
    Ok(gather_buffer(buf, &back, rounds))
}

/// Decrypting what the cat map encrypted, with the same parameters, gives
/// back the image that was encrypted.
pub proof fn lemma_arnold_round_trip(b: &PixelBuffer, p: ParameterSet, e: &PixelBuffer, d: &PixelBuffer)
    requires
        b.wf(),
        b.width == b.height,
        arnold_encrypted(b, p, e),
        arnold_decrypted(e, p, d),
    ensures
        d.same_image(b),
{
    let s = b.width as int;
    lemma_cat_pair(cat_coeff_a(p.seed, s), cat_coeff_b(p.seed, s), s);
    assert forall|c: Channel| #[trigger] d.plane(c) == b.plane(c) by {
        lemma_gather_iter_cancel(
            b.plane(c),
            cat_gather(cat_coeff_a(p.seed, s), cat_coeff_b(p.seed, s), s),
            cat_scatter(cat_coeff_a(p.seed, s), cat_coeff_b(p.seed, s), s),
            cat_rounds(p, s),
        );
    }
    assert(d.plane(Channel::Red) == b.plane(Channel::Red));
    assert(d.plane(Channel::Green) == b.plane(Channel::Green));
    assert(d.plane(Channel::Blue) == b.plane(Channel::Blue));
    assert(d.plane(Channel::Alpha) == b.plane(Channel::Alpha));
}

} // verus!
