//! The algebra of products in the ring, over the integers.
//!
//! A ring element is read here as a function on all integers: past its 256
//! coefficients it goes on with the sign turned, since `X^256` is `-1`. A
//! product is then one sum over any 256 places in a row, which is what makes
//! products of three elements easy to reorder.

use crate::ring::{inner_product, product_coeff, product_sum, product_term};
use vstd::arithmetic::div_mod::lemma_mul_mod_noop_left;
use vstd::prelude::*;

verus! {

/// The sum of `f` over the places from 0 up to `n`.
pub open spec fn sum(f: spec_fn(int) -> int, n: nat) -> int
    decreases n,
{
    if n == 0 {
        0
    } else {
        sum(f, (n - 1) as nat) + f(n - 1)
    }
}

/// Sums of functions that agree on the places summed over are equal.
pub proof fn lemma_sum_eq(f: spec_fn(int) -> int, g: spec_fn(int) -> int, n: nat)
    requires
        forall|i: int| 0 <= i < n ==> #[trigger] f(i) == g(i),
    ensures
        sum(f, n) == sum(g, n),
    decreases n,
{
    if n > 0 {
        lemma_sum_eq(f, g, (n - 1) as nat);
    }
}

/// The sum of a sum of two functions is the sum of their sums.
pub proof fn lemma_sum_add(f: spec_fn(int) -> int, g: spec_fn(int) -> int, n: nat)
    ensures
        sum(|i: int| f(i) + g(i), n) == sum(f, n) + sum(g, n),
    decreases n,
{
    if n > 0 {
        lemma_sum_add(f, g, (n - 1) as nat);
    }
}

/// A factor that does not depend on the place can be taken out of a sum.
pub proof fn lemma_sum_scale(c: int, f: spec_fn(int) -> int, n: nat)
    ensures
        sum(|i: int| c * f(i), n) == c * sum(f, n),
    decreases n,
{
    if n > 0 {
        lemma_sum_scale(c, f, (n - 1) as nat);
        assert(c * (sum(f, (n - 1) as nat) + f(n - 1)) == c * sum(f, (n - 1) as nat) + c * f(n - 1))
            by (nonlinear_arith);
    }
}

/// The order of two sums can be changed.
pub proof fn lemma_sum_swap(g: spec_fn(int, int) -> int, n: nat, m: nat)
    ensures
        sum(|i: int| sum(|j: int| g(i, j), m), n) == sum(|j: int| sum(|i: int| g(i, j), n), m),
    decreases n,
{
    let rows = |i: int| sum(|j: int| g(i, j), m);
    let cols = |j: int| sum(|i: int| g(i, j), n);
    if n == 0 {
        lemma_sum_eq(cols, |j: int| 0int, m);
        lemma_sum_zero(m);
    } else {
        let less = (n - 1) as nat;
        let cols_less = |j: int| sum(|i: int| g(i, j), less);
        let last = |j: int| g(n - 1, j);
        lemma_sum_swap(g, less, m);
        assert(sum(rows, less) == sum(cols_less, m));
        assert(rows(n - 1) == sum(last, m)) by {
            lemma_sum_eq(|j: int| g(n - 1, j), last, m);
        }
        lemma_sum_add(cols_less, last, m);
        lemma_sum_eq(cols, |j: int| cols_less(j) + last(j), m);
    }
}

/// The sum of the zero function is zero.
pub proof fn lemma_sum_zero(n: nat)
    ensures
        sum(|i: int| 0int, n) == 0,
    decreases n,
{
    if n > 0 {
        lemma_sum_zero((n - 1) as nat);
    }
}

/// Moving the places summed over up by one drops the first term and takes in
/// the next one after the last.
pub proof fn lemma_sum_shift_one(g: spec_fn(int) -> int, n: nat)
    ensures
        sum(|j: int| g(j + 1), n) == sum(g, n) - g(0) + g(n as int),
    decreases n,
{
    if n > 0 {
        lemma_sum_shift_one(g, (n - 1) as nat);
    }
}

/// Coefficient `i` of `a` read on all integers: each step of 256 places
/// turns the sign.
pub open spec fn wrap(a: Seq<int>, i: int) -> int {
    if (i / 256) % 2 == 0 {
        a[i % 256]
    } else {
        -a[i % 256]
    }
}

/// A step of 256 places turns the sign.
pub proof fn lemma_wrap_step(a: Seq<int>, i: int)
    ensures
        wrap(a, i + 256) == -wrap(a, i),
        wrap(a, i - 256) == -wrap(a, i),
{
}

/// Coefficient `k` of the product of `a` and `b`, for `k` on all integers.
pub open spec fn product_at(a: Seq<int>, b: Seq<int>, k: int) -> int {
    sum(|i: int| wrap(a, i) * wrap(b, k - i), 256)
}

/// The product of `a` and `b`.
pub open spec fn product(a: Seq<int>, b: Seq<int>) -> Seq<int> {
    Seq::new(256, |k: int| product_at(a, b, k))
}

/// The sum of `a` and `b`, place by place.
pub open spec fn plus(a: Seq<int>, b: Seq<int>) -> Seq<int> {
    Seq::new(256, |k: int| a[k] + b[k])
}

/// The product taken over the 256 places from `c` on.
pub open spec fn product_window(a: Seq<int>, b: Seq<int>, k: int, c: int) -> int {
    sum(|j: int| wrap(a, j + c) * wrap(b, k - c - j), 256)
}

/// Moving the window by one place does not change the product.
proof fn lemma_window_step(a: Seq<int>, b: Seq<int>, k: int, c: int)
    ensures
        product_window(a, b, k, c + 1) == product_window(a, b, k, c),
{
    let g = |j: int| wrap(a, j + c) * wrap(b, k - c - j);
    lemma_sum_shift_one(g, 256);
    lemma_sum_eq(|j: int| wrap(a, j + (c + 1)) * wrap(b, k - (c + 1) - j), |j: int| g(j + 1), 256);
    lemma_wrap_step(a, c);
    lemma_wrap_step(b, k - c);
    assert(g(256) == g(0)) by {
        let x = wrap(a, c);
        let y = wrap(b, k - c);
        assert((-x) * (-y) == x * y) by (nonlinear_arith);
    }
}

/// The product is the same over any 256 places in a row.
pub proof fn lemma_window(a: Seq<int>, b: Seq<int>, k: int, c: int)
    ensures
        product_window(a, b, k, c) == product_at(a, b, k),
    decreases
        (if c >= 0 {
            c
        } else {
            -c
        }),
{
    if c == 0 {
        lemma_sum_eq(
            |j: int| wrap(a, j + 0) * wrap(b, k - 0 - j),
            |i: int| wrap(a, i) * wrap(b, k - i),
            256,
        );
    } else if c > 0 {
        lemma_window(a, b, k, c - 1);
        lemma_window_step(a, b, k, c - 1);
    } else {
        lemma_window(a, b, k, c + 1);
        lemma_window_step(a, b, k, c);
    }
}

/// A step of 256 places turns the sign of a coefficient of the product.
pub proof fn lemma_product_step(a: Seq<int>, b: Seq<int>, k: int)
    ensures
        product_at(a, b, k + 256) == -product_at(a, b, k),
        product_at(a, b, k - 256) == -product_at(a, b, k),
{
    let f = |i: int| wrap(a, i) * wrap(b, k - i);
    let up = |i: int| wrap(a, i) * wrap(b, k + 256 - i);
    let down = |i: int| wrap(a, i) * wrap(b, k - 256 - i);
    let turned = |i: int| (-1) * f(i);
    assert forall|i: int| 0 <= i < 256 implies #[trigger] up(i) == turned(i) by {
        lemma_wrap_step(b, k - i);
        let x = wrap(a, i);
        let y = wrap(b, k - i);
        assert(x * (-y) == (-1) * (x * y)) by (nonlinear_arith);
    }
    assert forall|i: int| 0 <= i < 256 implies #[trigger] down(i) == turned(i) by {
        lemma_wrap_step(b, k - i);
        let x = wrap(a, i);
        let y = wrap(b, k - i);
        assert(x * (-y) == (-1) * (x * y)) by (nonlinear_arith);
    }
    lemma_sum_eq(up, turned, 256);
    lemma_sum_eq(down, turned, 256);
    lemma_sum_scale(-1, f, 256);
}

/// The coefficients of the product, read on all integers, are the product
/// at all integers.
pub proof fn lemma_wrap_product(a: Seq<int>, b: Seq<int>, k: int)
    ensures
        wrap(product(a, b), k) == product_at(a, b, k),
    decreases
        (if k >= 0 {
            k
        } else {
            -k
        }),
{
    if 0 <= k < 256 {
    } else if k >= 256 {
        lemma_wrap_product(a, b, k - 256);
        lemma_wrap_step(product(a, b), k - 256);
        lemma_product_step(a, b, k - 256);
    } else {
        if k + 256 < 0 {
            lemma_wrap_product(a, b, k + 256);
        }
        lemma_wrap_step(product(a, b), k + 256);
        lemma_product_step(a, b, k + 256);
    }
}

/// Both ways of bracketing a product of three come to one sum: every
/// coefficient of the first factor times a coefficient of the product of the
/// other two.
proof fn lemma_nested_left(a: Seq<int>, s: Seq<int>, r: Seq<int>, k: int)
    ensures
        product_at(product(a, s), r, k) == sum(|i: int| wrap(a, i) * product_at(s, r, k - i), 256),
{
    let g = |i: int, l: int| wrap(a, i) * (wrap(s, l - i) * wrap(r, k - l));
    let left = |l: int| wrap(product(a, s), l) * wrap(r, k - l);
    let by_place = |l: int| sum(|i: int| g(i, l), 256);
    assert forall|l: int| 0 <= l < 256 implies #[trigger] left(l) == by_place(l) by {
        lemma_wrap_product(a, s, l);
        let inner = |i: int| wrap(a, i) * wrap(s, l - i);
        let z = wrap(r, k - l);
        lemma_sum_scale(z, inner, 256);
        assert forall|i: int| 0 <= i < 256 implies z * #[trigger] inner(i) == g(i, l) by {
            let x = wrap(a, i);
            let y = wrap(s, l - i);
            assert(z * (x * y) == x * (y * z)) by (nonlinear_arith);
        }
        lemma_sum_eq(|i: int| z * inner(i), |i: int| g(i, l), 256);
        assert(sum(inner, 256) * z == z * sum(inner, 256)) by (nonlinear_arith);
    }
    lemma_sum_eq(left, by_place, 256);
    lemma_sum_swap(g, 256, 256);
    let by_factor = |i: int| sum(|l: int| g(i, l), 256);
    let right = |i: int| wrap(a, i) * product_at(s, r, k - i);
    assert forall|i: int| 0 <= i < 256 implies #[trigger] by_factor(i) == right(i) by {
        let x = wrap(a, i);
        let inner = |l: int| wrap(s, l - i) * wrap(r, k - l);
        lemma_sum_scale(x, inner, 256);
        lemma_sum_eq(|l: int| g(i, l), |l: int| x * inner(l), 256);
        lemma_window(s, r, k - i, -i);
        lemma_sum_eq(inner, |j: int| wrap(s, j + (-i)) * wrap(r, (k - i) - (-i) - j), 256);
    }
    lemma_sum_eq(by_factor, right, 256);
    lemma_sum_eq(|l: int| sum(|i: int| g(i, l), 256), by_place, 256);
    lemma_sum_eq(|i: int| sum(|l: int| g(i, l), 256), by_factor, 256);
}

/// The same sum from the other bracketing.
proof fn lemma_nested_right(a: Seq<int>, s: Seq<int>, r: Seq<int>, k: int)
    ensures
        product_at(s, product(a, r), k) == sum(|i: int| wrap(a, i) * product_at(s, r, k - i), 256),
{
    let g = |i: int, j: int| wrap(a, i) * (wrap(s, j) * wrap(r, k - i - j));
    let left = |j: int| wrap(s, j) * wrap(product(a, r), k - j);
    let by_place = |j: int| sum(|i: int| g(i, j), 256);
    assert forall|j: int| 0 <= j < 256 implies #[trigger] left(j) == by_place(j) by {
        lemma_wrap_product(a, r, k - j);
        let inner = |i: int| wrap(a, i) * wrap(r, k - j - i);
        let y = wrap(s, j);
        lemma_sum_scale(y, inner, 256);
        assert forall|i: int| 0 <= i < 256 implies y * #[trigger] inner(i) == g(i, j) by {
            let x = wrap(a, i);
            let z = wrap(r, k - j - i);
            assert(k - j - i == k - i - j);
            assert(y * (x * z) == x * (y * z)) by (nonlinear_arith);
        }
        lemma_sum_eq(|i: int| y * inner(i), |i: int| g(i, j), 256);
    }
    lemma_sum_eq(left, by_place, 256);
    lemma_sum_swap(g, 256, 256);
    let by_factor = |i: int| sum(|j: int| g(i, j), 256);
    let right = |i: int| wrap(a, i) * product_at(s, r, k - i);
    assert forall|i: int| 0 <= i < 256 implies #[trigger] by_factor(i) == right(i) by {
        let x = wrap(a, i);
        let inner = |j: int| wrap(s, j) * wrap(r, k - i - j);
        lemma_sum_scale(x, inner, 256);
        lemma_sum_eq(|j: int| g(i, j), |j: int| x * inner(j), 256);
    }
    lemma_sum_eq(by_factor, right, 256);
    lemma_sum_eq(|j: int| sum(|i: int| g(i, j), 256), by_place, 256);
    lemma_sum_eq(|i: int| sum(|j: int| g(i, j), 256), by_factor, 256);
}

/// A product of three can be bracketed either way round the middle factor:
/// `(a * s) * r` is `s * (a * r)`.
pub proof fn lemma_product_of_three(a: Seq<int>, s: Seq<int>, r: Seq<int>, k: int)
    ensures
        product_at(product(a, s), r, k) == product_at(s, product(a, r), k),
{
    lemma_nested_left(a, s, r, k);
    lemma_nested_right(a, s, r, k);
}

/// `x` and `y` leave the same remainder modulo the modulus of the ring.
pub open spec fn congruent(x: int, y: int) -> bool {
    (x - y) % 3329 == 0
}

/// `a` and `b` have 256 coefficients each, and these are congruent place by
/// place.
pub open spec fn congruent_each(a: Seq<int>, b: Seq<int>) -> bool {
    &&& a.len() == 256
    &&& b.len() == 256
    &&& forall|k: int| 0 <= k < 256 ==> congruent(#[trigger] a[k], b[k])
}

/// The coefficients of a ring element as integers.
pub open spec fn ints(p: Seq<u16>) -> Seq<int> {
    Seq::new(p.len(), |k: int| p[k] as int)
}

/// Sums of functions that are congruent on the places summed over are
/// congruent.
pub proof fn lemma_sum_congruent(f: spec_fn(int) -> int, g: spec_fn(int) -> int, n: nat)
    requires
        forall|i: int| 0 <= i < n ==> congruent(#[trigger] f(i), g(i)),
    ensures
        congruent(sum(f, n), sum(g, n)),
    decreases n,
{
    if n > 0 {
        lemma_sum_congruent(f, g, (n - 1) as nat);
        assert(congruent(f(n - 1), g(n - 1)));
    }
}

/// Products of congruent factors are congruent.
pub proof fn lemma_times_congruent(x: int, y: int, x2: int, y2: int)
    requires
        congruent(x, x2),
        congruent(y, y2),
    ensures
        congruent(x * y, x2 * y2),
{
    lemma_mul_mod_noop_left(x - x2, y, 3329);
    lemma_mul_mod_noop_left(y - y2, x2, 3329);
    assert(x * y - x2 * y2 == (x - x2) * y + (y - y2) * x2) by (nonlinear_arith);
    assert(0 * y == 0 && 0 * x2 == 0);
}

/// Congruent coefficients stay congruent when read on all integers.
pub proof fn lemma_wrap_congruent(a: Seq<int>, b: Seq<int>, i: int)
    requires
        congruent_each(a, b),
    ensures
        congruent(wrap(a, i), wrap(b, i)),
{
    assert(congruent(a[i % 256], b[i % 256]));
}

/// Products of elements with congruent coefficients have congruent
/// coefficients.
pub proof fn lemma_product_congruent(a: Seq<int>, b: Seq<int>, a2: Seq<int>, b2: Seq<int>, k: int)
    requires
        congruent_each(a, a2),
        congruent_each(b, b2),
    ensures
        congruent(product_at(a, b, k), product_at(a2, b2, k)),
{
    let f = |i: int| wrap(a, i) * wrap(b, k - i);
    let g = |i: int| wrap(a2, i) * wrap(b2, k - i);
    assert forall|i: int| 0 <= i < 256 implies congruent(#[trigger] f(i), g(i)) by {
        lemma_wrap_congruent(a, a2, i);
        lemma_wrap_congruent(b, b2, k - i);
        lemma_times_congruent(wrap(a, i), wrap(b, k - i), wrap(a2, i), wrap(b2, k - i));
    }
    lemma_sum_congruent(f, g, 256);
}

/// A product with a sum on the left is the sum of the products.
pub proof fn lemma_product_plus_left(a: Seq<int>, a2: Seq<int>, b: Seq<int>, k: int)
    requires
        a.len() == 256,
        a2.len() == 256,
    ensures
        product_at(plus(a, a2), b, k) == product_at(a, b, k) + product_at(a2, b, k),
{
    let f = |i: int| wrap(a, i) * wrap(b, k - i);
    let g = |i: int| wrap(a2, i) * wrap(b, k - i);
    let whole = |i: int| wrap(plus(a, a2), i) * wrap(b, k - i);
    assert forall|i: int| 0 <= i < 256 implies #[trigger] whole(i) == f(i) + g(i) by {
        let x = wrap(a, i);
        let x2 = wrap(a2, i);
        let y = wrap(b, k - i);
        assert(wrap(plus(a, a2), i) == x + x2);
        assert((x + x2) * y == x * y + x2 * y) by (nonlinear_arith);
    }
    lemma_sum_eq(whole, |i: int| f(i) + g(i), 256);
    lemma_sum_add(f, g, 256);
}

/// A product with a sum on the right is the sum of the products.
pub proof fn lemma_product_plus_right(a: Seq<int>, b: Seq<int>, b2: Seq<int>, k: int)
    requires
        b.len() == 256,
        b2.len() == 256,
    ensures
        product_at(a, plus(b, b2), k) == product_at(a, b, k) + product_at(a, b2, k),
{
    let f = |i: int| wrap(a, i) * wrap(b, k - i);
    let g = |i: int| wrap(a, i) * wrap(b2, k - i);
    let whole = |i: int| wrap(a, i) * wrap(plus(b, b2), k - i);
    assert forall|i: int| 0 <= i < 256 implies #[trigger] whole(i) == f(i) + g(i) by {
        let x = wrap(a, i);
        let y = wrap(b, k - i);
        let y2 = wrap(b2, k - i);
        assert(wrap(plus(b, b2), k - i) == y + y2);
        assert(x * (y + y2) == x * y + x * y2) by (nonlinear_arith);
    }
    lemma_sum_eq(whole, |i: int| f(i) + g(i), 256);
    lemma_sum_add(f, g, 256);
}

/// The coefficient of a product as the ring computes it, term by term, is
/// the coefficient of the product of the integer coefficients.
pub proof fn lemma_product_coeff(a: Seq<u16>, b: Seq<u16>, k: int)
    requires
        a.len() == 256,
        b.len() == 256,
        0 <= k < 256,
    ensures
        product_coeff(a, b, k) == product_at(ints(a), ints(b), k),
{
    lemma_product_sum(a, b, k, 256);
}

/// The same for the sum of the first `n` terms.
proof fn lemma_product_sum(a: Seq<u16>, b: Seq<u16>, k: int, n: nat)
    requires
        a.len() == 256,
        b.len() == 256,
        0 <= k < 256,
        n <= 256,
    ensures
        product_sum(a, b, k, n) == sum(|i: int| wrap(ints(a), i) * wrap(ints(b), k - i), n),
    decreases n,
{
    if n > 0 {
        lemma_product_sum(a, b, k, (n - 1) as nat);
        let i = n - 1;
        let x = a[i] as int;
        if i <= k {
            assert(wrap(ints(b), k - i) == b[k - i]);
        } else {
            let y = b[k + 256 - i] as int;
            assert((k - i) / 256 == -1);
            assert((k - i) % 256 == k + 256 - i);
            assert(wrap(ints(b), k - i) == -y);
            assert(x * (-y) == -(x * y)) by (nonlinear_arith);
        }
        assert(wrap(ints(a), i) == x);
        assert(product_term(a, b, k, i) == wrap(ints(a), i) * wrap(ints(b), k - i));
    }
}

/// The coefficients of `a0 * b0 + a1 * b1` in the ring are congruent to
/// those of the same expression over the integers.
pub proof fn lemma_inner_product_ints(a0: Seq<u16>, b0: Seq<u16>, a1: Seq<u16>, b1: Seq<u16>)
    requires
        a0.len() == 256,
        b0.len() == 256,
        a1.len() == 256,
        b1.len() == 256,
    ensures
        congruent_each(
            ints(inner_product(a0, b0, a1, b1)),
            plus(product(ints(a0), ints(b0)), product(ints(a1), ints(b1))),
        ),
{
    let left = ints(inner_product(a0, b0, a1, b1));
    let right = plus(product(ints(a0), ints(b0)), product(ints(a1), ints(b1)));
    assert forall|k: int| 0 <= k < 256 implies congruent(#[trigger] left[k], right[k]) by {
        lemma_product_coeff(a0, b0, k);
        lemma_product_coeff(a1, b1, k);
    }
}

/// What is left of a ciphertext when the secret vector is applied to it.
///
/// Let the public vector `t` be the matrix `a` times the secret vector `s`
/// plus `e`, and let `u` be the transposed matrix times `r` plus `g`, all up
/// to multiples of the modulus. Then `t * r - s * u` is `e * r - s * g`: the
/// matrix drops out.
pub proof fn lemma_matrix_drops_out(
    a: (Seq<int>, Seq<int>, Seq<int>, Seq<int>),
    s: (Seq<int>, Seq<int>),
    e: (Seq<int>, Seq<int>),
    r: (Seq<int>, Seq<int>),
    g: (Seq<int>, Seq<int>),
    t: (Seq<int>, Seq<int>),
    u: (Seq<int>, Seq<int>),
    k: int,
)
    requires
        e.0.len() == 256,
        e.1.len() == 256,
        g.0.len() == 256,
        g.1.len() == 256,
        s.0.len() == 256,
        s.1.len() == 256,
        r.0.len() == 256,
        r.1.len() == 256,
        congruent_each(t.0, plus(plus(product(a.0, s.0), product(a.1, s.1)), e.0)),
        congruent_each(t.1, plus(plus(product(a.2, s.0), product(a.3, s.1)), e.1)),
        congruent_each(u.0, plus(plus(product(a.0, r.0), product(a.2, r.1)), g.0)),
        congruent_each(u.1, plus(plus(product(a.1, r.0), product(a.3, r.1)), g.1)),
    ensures
        congruent(
            product_at(t.0, r.0, k) + product_at(t.1, r.1, k) - product_at(s.0, u.0, k)
                - product_at(s.1, u.1, k),
            product_at(e.0, r.0, k) + product_at(e.1, r.1, k) - product_at(s.0, g.0, k)
                - product_at(s.1, g.1, k),
        ),
{
    let t0 = plus(plus(product(a.0, s.0), product(a.1, s.1)), e.0);
    let t1 = plus(plus(product(a.2, s.0), product(a.3, s.1)), e.1);
    let u0 = plus(plus(product(a.0, r.0), product(a.2, r.1)), g.0);
    let u1 = plus(plus(product(a.1, r.0), product(a.3, r.1)), g.1);
    assert(congruent_each(r.0, r.0) && congruent_each(r.1, r.1) && congruent_each(s.0, s.0)
        && congruent_each(s.1, s.1)) by {
        assert forall|x: int| congruent(x, x) by {}
    }
    lemma_product_congruent(t.0, r.0, t0, r.0, k);
    lemma_product_congruent(t.1, r.1, t1, r.1, k);
    lemma_product_congruent(s.0, u.0, s.0, u0, k);
    lemma_product_congruent(s.1, u.1, s.1, u1, k);
    lemma_product_plus_left(plus(product(a.0, s.0), product(a.1, s.1)), e.0, r.0, k);
    lemma_product_plus_left(product(a.0, s.0), product(a.1, s.1), r.0, k);
    lemma_product_plus_left(plus(product(a.2, s.0), product(a.3, s.1)), e.1, r.1, k);
    lemma_product_plus_left(product(a.2, s.0), product(a.3, s.1), r.1, k);
    lemma_product_plus_right(s.0, plus(product(a.0, r.0), product(a.2, r.1)), g.0, k);
    lemma_product_plus_right(s.0, product(a.0, r.0), product(a.2, r.1), k);
    lemma_product_plus_right(s.1, plus(product(a.1, r.0), product(a.3, r.1)), g.1, k);
    lemma_product_plus_right(s.1, product(a.1, r.0), product(a.3, r.1), k);
    lemma_product_of_three(a.0, s.0, r.0, k);
    lemma_product_of_three(a.1, s.1, r.0, k);
    lemma_product_of_three(a.2, s.0, r.1, k);
    lemma_product_of_three(a.3, s.1, r.1, k);
}

} // verus!
