//! Index permutations of a plane and modular masks: the two building blocks
//! of every cipher, each with its exact inverse.
use vstd::prelude::*;

verus! {

/// `p` and `q` are mutually inverse permutations of `0..n`.
pub open spec fn is_inverse_pair(p: Seq<usize>, q: Seq<usize>, n: int) -> bool {
    &&& p.len() == n
    &&& q.len() == n
    &&& forall|i: int| 0 <= i < n ==> #[trigger] p[i] < n && q[p[i] as int] == i
    &&& forall|i: int| 0 <= i < n ==> #[trigger] q[i] < n && p[q[i] as int] == i
}

/// The plane whose sample `i` is the sample `p[i]` of `s`.
pub open spec fn gather(s: Seq<u8>, p: Seq<usize>) -> Seq<u8> {
    Seq::new(p.len(), |i: int| s[p[i] as int])
}

/// `gather` applied `k` times with the same index map.
pub open spec fn gather_iter(s: Seq<u8>, p: Seq<usize>, k: nat) -> Seq<u8>
    decreases k,
{
    if k == 0 {
        s
    } else {
        gather_iter(gather(s, p), p, (k - 1) as nat)
    }
}

/// The plane with mask `m` added sample by sample, modulo 256.
pub open spec fn add_mask(s: Seq<u8>, m: Seq<u8>) -> Seq<u8> {
    Seq::new(s.len(), |i: int| ((s[i] + m[i]) % 256) as u8)
}

/// The plane with mask `m` subtracted sample by sample, modulo 256.
pub open spec fn sub_mask(s: Seq<u8>, m: Seq<u8>) -> Seq<u8> {
    Seq::new(s.len(), |i: int| ((s[i] - m[i]) % 256) as u8)
}

pub proof fn lemma_gather_iter_len(s: Seq<u8>, p: Seq<usize>, k: nat)
    requires
        s.len() == p.len(),
    ensures
        gather_iter(s, p, k).len() == s.len(),
    decreases k,
{
    if k > 0 {
        lemma_gather_iter_len(gather(s, p), p, (k - 1) as nat);
    }
}

/// One more round is one more `gather` on the outside.
pub proof fn lemma_gather_iter_unfold(s: Seq<u8>, p: Seq<usize>, k: nat)
    ensures
        gather_iter(s, p, k + 1) == gather(gather_iter(s, p, k), p),
    decreases k,
{
    assert(gather_iter(s, p, k + 1) == gather_iter(gather(s, p), p, k));
    if k > 0 {
        lemma_gather_iter_unfold(gather(s, p), p, (k - 1) as nat);
        assert(gather_iter(s, p, k) == gather_iter(gather(s, p), p, (k - 1) as nat));
    } else {
        assert(gather_iter(gather(s, p), p, 0) == gather(s, p));
    }
}

/// Gathering by `p` and then by its inverse `q` gives the plane back.
pub proof fn lemma_gather_cancel(s: Seq<u8>, p: Seq<usize>, q: Seq<usize>)
    requires
        is_inverse_pair(p, q, s.len() as int),
    ensures
        gather(gather(s, p), q) == s,
{
    let g = gather(s, p);
    assert forall|j: int| 0 <= j < s.len() implies #[trigger] gather(g, q)[j] == s[j] by {
        assert(q[j] < s.len());
        assert(p[q[j] as int] == j);
    }
    assert(gather(g, q) =~= s);
}

/// `k` rounds by `p` are undone by `k` rounds by its inverse `q`.
pub proof fn lemma_gather_iter_cancel(s: Seq<u8>, p: Seq<usize>, q: Seq<usize>, k: nat)
    requires
        is_inverse_pair(p, q, s.len() as int),
    ensures
        gather_iter(gather_iter(s, p, k), q, k) == s,
    decreases k,
{
    if k > 0 {
        let k1 = (k - 1) as nat;
        let inner = gather_iter(s, p, k1);
        lemma_gather_iter_len(s, p, k1);
        lemma_gather_iter_unfold(s, p, k1);
        lemma_gather_cancel(inner, p, q);
        lemma_gather_iter_cancel(s, p, q, k1);
    }
}

/// Gathering by a permutation only moves samples: the multiset of sample
/// values is unchanged.
pub proof fn lemma_gather_multiset(s: Seq<u8>, p: Seq<usize>, q: Seq<usize>)
    requires
        is_inverse_pair(p, q, s.len() as int),
    ensures
        gather(s, p).to_multiset() == s.to_multiset(),
    decreases s.len(),
{
    broadcast use vstd::seq_lib::group_to_multiset_ensures;
    let n = s.len() as int;
    let g = gather(s, p);
    if n == 0 {
        assert(g =~= s);
    } else {
        let k = q[n - 1] as int;
        assert(p[k] == n - 1);
        let s1 = s.drop_last();
        let p1 = p.remove(k);
        let q1 = Seq::new((n - 1) as nat, |j: int| if q[j] < k { q[j] } else { (q[j] - 1) as usize });
        assert forall|i: int| 0 <= i < n - 1 implies #[trigger] p1[i] < n - 1 && q1[p1[i] as int] == i by {
            let i0 = if i < k { i } else { i + 1 };
            assert(p1[i] == p[i0]);
            assert(q[p[i0] as int] == i0);
            if p[i0] == n - 1 {
                assert(i0 == k);
            }
        }
        assert forall|j: int| 0 <= j < n - 1 implies #[trigger] q1[j] < n - 1 && p1[q1[j] as int] == j by {
            assert(q[j] != k);
            assert(p[q[j] as int] == j);
        }
        lemma_gather_multiset(s1, p1, q1);
        assert(g.remove(k) =~= gather(s1, p1));
        vstd::seq_lib::to_multiset_remove(g, k);
        assert(s1.push(s[n - 1]) =~= s);
        vstd::seq_lib::to_multiset_build(s1, s[n - 1]);
        assert(g[k] == s[n - 1]);
        vstd::seq_lib::to_multiset_contains(g, g[k]);
        assert(g.to_multiset() =~= g.to_multiset().remove(g[k]).insert(g[k]));
    }
}

/// Any number of rounds of gathering by a permutation keeps the multiset of
/// sample values.
pub proof fn lemma_gather_iter_multiset(s: Seq<u8>, p: Seq<usize>, q: Seq<usize>, k: nat)
    requires
        is_inverse_pair(p, q, s.len() as int),
    ensures
        gather_iter(s, p, k).to_multiset() == s.to_multiset(),
    decreases k,
{
    if k > 0 {
        lemma_gather_multiset(s, p, q);
        assert(gather(s, p).len() == s.len());
        lemma_gather_iter_multiset(gather(s, p), p, q, (k - 1) as nat);
    }
}

/// Subtracting a mask undoes adding it.
pub proof fn lemma_mask_cancel(s: Seq<u8>, m: Seq<u8>)
    requires
        m.len() == s.len(),
    ensures
        sub_mask(add_mask(s, m), m) == s,
{
    let a = add_mask(s, m);
    assert forall|i: int| 0 <= i < s.len() implies #[trigger] sub_mask(a, m)[i] == s[i] by {
        let x = s[i] as int;
        let y = m[i] as int;
        assert(((((x + y) % 256) - y) % 256) == x) by {
            vstd::arithmetic::div_mod::lemma_sub_mod_noop(x + y, y, 256);
            vstd::arithmetic::div_mod::lemma_mod_twice(x + y, 256);
            vstd::arithmetic::div_mod::lemma_small_mod(x as nat, 256);
            vstd::arithmetic::div_mod::lemma_sub_mod_noop((x + y) % 256, y, 256);
            vstd::arithmetic::div_mod::lemma_mod_twice(((x + y) % 256) - y, 256);
        }
    }
    assert(sub_mask(a, m) =~= s);
}

/// The plane `gather(s, p)`.
pub fn gather_plane(s: &Vec<u8>, p: &Vec<usize>) -> (r: Vec<u8>)
    requires
        forall|i: int| 0 <= i < p@.len() ==> #[trigger] p@[i] < s@.len(),
    ensures
        r@ == gather(s@, p@),
{
    let mut out: Vec<u8> = Vec::with_capacity(p.len());
    let mut i: usize = 0;
    while i < p.len()
        invariant
            i <= p@.len(),
            forall|j: int| 0 <= j < p@.len() ==> #[trigger] p@[j] < s@.len(),
            out@ == gather(s@, p@).subrange(0, i as int),
        decreases p@.len() - i,
    {
        out.push(s[p[i]]);
        i = i + 1;
        assert(out@ =~= gather(s@, p@).subrange(0, i as int));
    }
    assert(out@ =~= gather(s@, p@));
    out
}

/// The plane `gather_iter(s, p, k)`.
pub fn gather_rounds(s: &Vec<u8>, p: &Vec<usize>, k: usize) -> (r: Vec<u8>)
    requires
        p@.len() == s@.len(),
        forall|i: int| 0 <= i < p@.len() ==> #[trigger] p@[i] < s@.len(),
    ensures
        r@ == gather_iter(s@, p@, k as nat),
        r@.len() == s@.len(),
{
    let mut cur: Vec<u8> = s.clone();
    let mut t: usize = 0;
    while t < k
        invariant
            t <= k,
            p@.len() == s@.len(),
            forall|i: int| 0 <= i < p@.len() ==> #[trigger] p@[i] < s@.len(),
            cur@ == gather_iter(s@, p@, t as nat),
            cur@.len() == s@.len(),
        decreases k - t,
    {
        proof {
            lemma_gather_iter_unfold(s@, p@, t as nat);
        }
        cur = gather_plane(&cur, p);
        t = t + 1;
    }
    cur
}

/// The plane `add_mask(s, m)`.
pub fn add_mask_plane(s: &Vec<u8>, m: &Vec<u8>) -> (r: Vec<u8>)
    requires
        m@.len() == s@.len(),
    ensures
        r@ == add_mask(s@, m@),
{
    let mut out: Vec<u8> = Vec::with_capacity(s.len());
    let mut i: usize = 0;
    while i < s.len()
        invariant
            i <= s@.len(),
            m@.len() == s@.len(),
            out@ == add_mask(s@, m@).subrange(0, i as int),
        decreases s@.len() - i,
    {
        out.push(s[i].wrapping_add(m[i]));
        i = i + 1;
        assert(out@ =~= add_mask(s@, m@).subrange(0, i as int));
    }
    assert(out@ =~= add_mask(s@, m@));
    out
}

/// The plane `sub_mask(s, m)`.
pub fn sub_mask_plane(s: &Vec<u8>, m: &Vec<u8>) -> (r: Vec<u8>)
    requires
        m@.len() == s@.len(),
    ensures
        r@ == sub_mask(s@, m@),
{
    let mut out: Vec<u8> = Vec::with_capacity(s.len());
    let mut i: usize = 0;
    while i < s.len()
        invariant
            i <= s@.len(),
            m@.len() == s@.len(),
            out@ == sub_mask(s@, m@).subrange(0, i as int),
        decreases s@.len() - i,
    {
        out.push(s[i].wrapping_sub(m[i]));
        i = i + 1;
        assert(out@ =~= sub_mask(s@, m@).subrange(0, i as int));
    }
    assert(out@ =~= sub_mask(s@, m@));
    out
}

} // verus!
