//! Arithmetic on elements of the ring of polynomials modulo `X^256 + 1` with
//! coefficients modulo `Q`, held as their 256 coefficients, lowest first.

use crate::params::{N, Q};
use vstd::prelude::*;

verus! {

/// Every entry of `p` is a residue modulo `Q`.
pub open spec fn is_reduced(p: Seq<u16>) -> bool {
    forall|i: int| 0 <= i < p.len() ==> #[trigger] p[i] < Q
}

/// `p` holds the coefficients of a ring element.
pub open spec fn is_poly(p: Seq<u16>) -> bool {
    p.len() == N && is_reduced(p)
}

/// What the coefficients `a[i]` and its partner in `b` give to coefficient `k`
/// of the product: `X^256` is `-1`, so a partner that wraps around counts
/// negative.
pub open spec fn product_term(a: Seq<u16>, b: Seq<u16>, k: int, i: int) -> int {
    if i <= k {
        a[i] * b[k - i]
    } else {
        -(a[i] * b[k + N - i])
    }
}

/// The sum of the first `n` terms of coefficient `k` of the product.
pub open spec fn product_sum(a: Seq<u16>, b: Seq<u16>, k: int, n: nat) -> int
    decreases n,
{
    if n == 0 {
        0
    } else {
        product_sum(a, b, k, (n - 1) as nat) + product_term(a, b, k, n - 1)
    }
}

/// Coefficient `k` of the product of `a` and `b`, as an integer.
pub open spec fn product_coeff(a: Seq<u16>, b: Seq<u16>, k: int) -> int {
    product_sum(a, b, k, N as nat)
}

/// The ring element `a0 * b0 + a1 * b1`.
pub open spec fn inner_product(a0: Seq<u16>, b0: Seq<u16>, a1: Seq<u16>, b1: Seq<u16>) -> Seq<u16> {
    Seq::new(
        N as nat,
        |k: int| ((product_coeff(a0, b0, k) + product_coeff(a1, b1, k)) % (Q as int)) as u16,
    )
}

/// The sum of `a` and `b`, entry by entry.
pub open spec fn poly_add(a: Seq<u16>, b: Seq<u16>) -> Seq<u16> {
    Seq::new(a.len(), |k: int| ((a[k] + b[k]) % (Q as int)) as u16)
}

/// The difference of `a` and `b`, entry by entry.
pub open spec fn poly_sub(a: Seq<u16>, b: Seq<u16>) -> Seq<u16> {
    Seq::new(a.len(), |k: int| ((a[k] - b[k]) % (Q as int)) as u16)
}

/// `x` modulo `Q`.
pub open spec fn reduce(x: u16) -> u16 {
    (x % Q) as u16
}

/// The nearest of `levels` evenly spaced marks round the circle of residues,
/// for the residue `x`: `x * levels / Q`, rounded, modulo `levels`.
pub open spec fn compress(x: u16, levels: int) -> u16 {
    (((x * levels + Q / 2) / (Q as int)) % levels) as u16
}

/// The residue at mark `y` of `levels`: `y * Q / levels`, rounded.
pub open spec fn decompress(y: u16, levels: int) -> u16 {
    ((y * Q + levels / 2) / levels) as u16
}

/// Every entry of `p` modulo `Q`.
pub open spec fn reduce_each(p: Seq<u16>) -> Seq<u16> {
    p.map_values(|x: u16| reduce(x))
}

/// Every entry of `p` rounded to one of `levels` marks.
pub open spec fn compress_each(p: Seq<u16>, levels: int) -> Seq<u16> {
    p.map_values(|x: u16| compress(x, levels))
}

/// The residue at each mark of `p`, out of `levels` marks.
pub open spec fn decompress_each(p: Seq<u16>, levels: int) -> Seq<u16> {
    p.map_values(|y: u16| decompress(y, levels))
}

/// A multiple of `Q` that no sum of wrapped terms exceeds.
const WRAP_OFFSET: u64 = 5674107392;

/// The product of two residues is at most the square of the largest.
proof fn lemma_term_bound(x: u16, y: u16)
    requires
        x < Q,
        y < Q,
    ensures
        0 <= x * y <= 11075584,
{
    assert(0 <= x * y <= 3328 * 3328) by (nonlinear_arith)
        requires
            0 <= x <= 3328,
            0 <= y <= 3328,
    ;
}

/// Coefficient `k` of `a0 * b0 + a1 * b1`.
fn inner_product_coeff(a0: &[u16], b0: &[u16], a1: &[u16], b1: &[u16], k: usize) -> (c: u16)
    requires
        is_poly(a0@),
        is_poly(b0@),
        is_poly(a1@),
        is_poly(b1@),
        k < N,
    ensures
        c == inner_product(a0@, b0@, a1@, b1@)[k as int],
{
    let mut straight: u64 = 0;
    let mut i: usize = 0;
    while i <= k
        invariant
            is_poly(a0@),
            is_poly(b0@),
            is_poly(a1@),
            is_poly(b1@),
            k < N,
            i <= k + 1,
            straight == product_sum(a0@, b0@, k as int, i as nat) + product_sum(
                a1@,
                b1@,
                k as int,
                i as nat,
            ),
            straight <= i * 22151168,
        decreases k + 1 - i,
    {
        proof {
            lemma_term_bound(a0[i as int], b0[k - i]);
            lemma_term_bound(a1[i as int], b1[k - i]);
        }
        straight = straight + (a0[i] as u64) * (b0[k - i] as u64) + (a1[i] as u64) * (b1[k
            - i] as u64);
        i = i + 1;
    }
    let mut wrapped: u64 = 0;
    while i < N
        invariant
            is_poly(a0@),
            is_poly(b0@),
            is_poly(a1@),
            is_poly(b1@),
            k < N,
            k < i <= N,
            straight - wrapped == product_sum(a0@, b0@, k as int, i as nat) + product_sum(
                a1@,
                b1@,
                k as int,
                i as nat,
            ),
            wrapped <= (i - k - 1) * 22151168,
            straight <= 256 * 22151168,
        decreases N - i,
    {
        proof {
            lemma_term_bound(a0[i as int], b0[k + N - i]);
            lemma_term_bound(a1[i as int], b1[k + N - i]);
        }
        wrapped = wrapped + (a0[i] as u64) * (b0[k + N - i] as u64) + (a1[i] as u64) * (b1[k + N
            - i] as u64);
        i = i + 1;
    }
    let r: u64 = (straight + (WRAP_OFFSET - wrapped)) % (Q as u64);
    assert(r == (straight - wrapped) % (Q as int)) by {
        assert(WRAP_OFFSET == 1704448 * 3329);
    }
    r as u16
}

/// The ring element `a0 * b0 + a1 * b1`.
pub fn mul_pair(a0: &[u16], b0: &[u16], a1: &[u16], b1: &[u16]) -> (out: Vec<u16>)
    requires
        is_poly(a0@),
        is_poly(b0@),
        is_poly(a1@),
        is_poly(b1@),
    ensures
        out@ == inner_product(a0@, b0@, a1@, b1@),
        is_poly(out@),
{
    let mut out: Vec<u16> = Vec::with_capacity(N);
    let mut k: usize = 0;
    while k < N
        invariant
            is_poly(a0@),
            is_poly(b0@),
            is_poly(a1@),
            is_poly(b1@),
            k <= N,
            out@.len() == k,
            forall|j: int| 0 <= j < k ==> out@[j] == inner_product(a0@, b0@, a1@, b1@)[j],
        decreases N - k,
    {
        let c: u16 = inner_product_coeff(a0, b0, a1, b1, k);
        out.push(c);
        k = k + 1;
    }
    assert(out@ =~= inner_product(a0@, b0@, a1@, b1@));
    out
}

/// The sum of `a` and `b`, entry by entry.
pub fn add_mod(a: &[u16], b: &[u16]) -> (out: Vec<u16>)
    requires
        a.len() == b.len(),
        is_reduced(a@),
        is_reduced(b@),
    ensures
        out@ == poly_add(a@, b@),
        is_reduced(out@),
{
    let mut out: Vec<u16> = Vec::with_capacity(a.len());
    let mut k: usize = 0;
    while k < a.len()
        invariant
            a.len() == b.len(),
            is_reduced(a@),
            is_reduced(b@),
            k <= a.len(),
            out@.len() == k,
            forall|j: int| 0 <= j < k ==> out@[j] == poly_add(a@, b@)[j],
        decreases a.len() - k,
    {
        out.push((a[k] + b[k]) % Q);
        k = k + 1;
    }
    assert(out@ =~= poly_add(a@, b@));
    out
}

/// The difference of `a` and `b`, entry by entry.
pub fn sub_mod(a: &[u16], b: &[u16]) -> (out: Vec<u16>)
    requires
        a.len() == b.len(),
        is_reduced(a@),
        is_reduced(b@),
    ensures
        out@ == poly_sub(a@, b@),
        is_reduced(out@),
{
    let mut out: Vec<u16> = Vec::with_capacity(a.len());
    let mut k: usize = 0;
    while k < a.len()
        invariant
            a.len() == b.len(),
            is_reduced(a@),
            is_reduced(b@),
            k <= a.len(),
            out@.len() == k,
            forall|j: int| 0 <= j < k ==> out@[j] == poly_sub(a@, b@)[j],
        decreases a.len() - k,
    {
        out.push((a[k] + (Q - b[k])) % Q);
        k = k + 1;
    }
    assert(out@ =~= poly_sub(a@, b@));
    out
}

/// Every entry of `p` modulo `Q`.
pub fn reduce_all(p: &[u16]) -> (out: Vec<u16>)
    ensures
        out@ == reduce_each(p@),
        is_reduced(out@),
{
    let mut out: Vec<u16> = Vec::with_capacity(p.len());
    let mut k: usize = 0;
    while k < p.len()
        invariant
            k <= p.len(),
            out@.len() == k,
            forall|j: int| 0 <= j < k ==> out@[j] == reduce(p@[j]),
        decreases p.len() - k,
    {
        out.push(p[k] % Q);
        k = k + 1;
    }
    assert(out@ =~= reduce_each(p@));
    out
}

/// Every entry of `p` rounded to one of `levels` marks.
pub fn compress_all(p: &[u16], levels: u32) -> (out: Vec<u16>)
    requires
        is_reduced(p@),
        1 <= levels <= 4096,
    ensures
        out@ == compress_each(p@, levels as int),
        forall|j: int| 0 <= j < out@.len() ==> out@[j] < levels,
{
    let mut out: Vec<u16> = Vec::with_capacity(p.len());
    let mut k: usize = 0;
    while k < p.len()
        invariant
            is_reduced(p@),
            1 <= levels <= 4096,
            k <= p.len(),
            out@.len() == k,
            forall|j: int| 0 <= j < k ==> out@[j] == compress(p@[j], levels as int),
            forall|j: int| 0 <= j < k ==> out@[j] < levels,
        decreases p.len() - k,
    {
        let x: u32 = p[k] as u32;
        assert(x * levels <= 3328 * 4096) by (nonlinear_arith)
            requires
                x <= 3328,
                levels <= 4096,
        ;
        let y: u32 = ((x * levels + (Q as u32) / 2) / (Q as u32)) % levels;
        out.push(y as u16);
        k = k + 1;
    }
    assert(out@ =~= compress_each(p@, levels as int));
    out
}

/// The residue at each mark of `p`, out of `levels` marks.
pub fn decompress_all(p: &[u16], levels: u32) -> (out: Vec<u16>)
    requires
        1 <= levels <= 4096,
        forall|j: int| 0 <= j < p@.len() ==> p@[j] < levels,
    ensures
        out@ == decompress_each(p@, levels as int),
        is_reduced(out@),
{
    let mut out: Vec<u16> = Vec::with_capacity(p.len());
    let mut k: usize = 0;
    while k < p.len()
        invariant
            1 <= levels <= 4096,
            forall|j: int| 0 <= j < p@.len() ==> p@[j] < levels,
            k <= p.len(),
            out@.len() == k,
            forall|j: int| 0 <= j < k ==> out@[j] == decompress(p@[j], levels as int),
            forall|j: int| 0 <= j < k ==> out@[j] < Q,
        decreases p.len() - k,
    {
        let y: u32 = p[k] as u32;
        assert(y * 3329 + levels / 2 < levels * 3329) by (nonlinear_arith)
            requires
                y < levels,
                1 <= levels <= 4096,
        ;
        assert(levels * 3329 <= 4096 * 3329) by (nonlinear_arith)
            requires
                levels <= 4096,
        ;
        let x: u32 = (y * (Q as u32) + levels / 2) / levels;
        assert(x < 3329) by (nonlinear_arith)
            requires
                x == (y * 3329 + levels / 2) / (levels as int),
                y * 3329 + levels / 2 < levels * 3329,
                levels >= 1,
        ;
        out.push(x as u16);
        k = k + 1;
    }
    assert(out@ =~= decompress_each(p@, levels as int));
    out
}

} // verus!
