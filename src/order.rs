use vstd::prelude::*;
use crate::padding::{pow2, lemma_pow2_pos};
use crate::sort::{lemma_pow2_divides, lemma_stage_count, sorted_by_hash, network};
use crate::sort::{apply_stages, stage, stages, inner_stages, lemma_pair_in_bounds};
use crate::unit::Unit;

verus! {

/// Which units have a key of at least `t`.
pub open spec fn bits(s: Seq<Unit>, t: int) -> Seq<bool> {
    Seq::new(s.len(), |i: int| s[i].hash_id >= t)
}

pub open spec fn swaps01(b: Seq<bool>, i: int, level: int, half: int) -> bool {
    if (i / level) % 2 == 0 {
        b[i] && !b[i + half]
    } else {
        !b[i] && b[i + half]
    }
}

/// A stage on a sequence of bits, `false` before `true`.
pub open spec fn stage01(b: Seq<bool>, level: int, half: int) -> Seq<bool> {
    Seq::new(
        b.len(),
        |k: int|
            if k % (2 * half) < half {
                if swaps01(b, k, level, half) {
                    b[k + half]
                } else {
                    b[k]
                }
            } else {
                if swaps01(b, k - half, level, half) {
                    b[k - half]
                } else {
                    b[k]
                }
            },
    )
}

pub open spec fn apply01(b: Seq<bool>, st: Seq<(int, int)>) -> Seq<bool>
    decreases st.len(),
{
    if st.len() == 0 {
        b
    } else {
        let l = st.last();
        stage01(apply01(b, st.drop_last()), l.0 as int, l.1 as int / 2)
    }
}

/// A stage fits a sequence of length `n`: positive block size, and a step
/// `2 * half` that divides `n`.
pub open spec fn fits(st: (int, int), n: int) -> bool {
    &&& st.0 > 0
    &&& st.1 >= 2
    &&& st.1 % 2 == 0
    &&& n % st.1 == 0
}

pub(crate) proof fn lemma_mod_parts(k: int, half: int)
    requires
        0 <= k,
        0 < half,
    ensures
        k % (2 * half) < half ==> (k + half) % (2 * half) == k % (2 * half) + half && (k + half) / (2
            * half) == k / (2 * half),
        k % (2 * half) >= half ==> k - half >= 0 && (k - half) % (2 * half) == k % (2 * half) - half
            && (k - half) / (2 * half) == k / (2 * half),
{
    let st = 2 * half;
    assert(k == (k / st) * st + k % st) by (nonlinear_arith)
        requires st > 0;
    assert(k / st >= 0) by (nonlinear_arith)
        requires st > 0, k >= 0;
    assert((k / st) * st >= 0) by (nonlinear_arith)
        requires st > 0, k / st >= 0;
    if k % st < half {
        vstd::arithmetic::div_mod::lemma_fundamental_div_mod_converse(k + half, st, k / st, k % st + half);
    } else {
        vstd::arithmetic::div_mod::lemma_fundamental_div_mod_converse(k - half, st, k / st, k % st - half);
    }
}

/// Thresholding commutes with a stage.
proof fn lemma_bits_stage(s: Seq<Unit>, t: int, level: int, half: int)
    requires
        level > 0,
        half > 0,
        s.len() as int % (2 * half) == 0,
    ensures
        bits(stage(s, level, half), t) == stage01(bits(s, t), level, half),
{
    let l = bits(stage(s, level, half), t);
    let r = stage01(bits(s, t), level, half);
    assert forall|k: int| 0 <= k < s.len() implies l[k] == r[k] by {
        lemma_mod_parts(k, half);
        if k % (2 * half) < half {
            lemma_pair_in_bounds(k, half, s.len() as int);
        } else {
            lemma_mod_parts(k - half, half);
        }
    }
    assert(l =~= r);
}

proof fn lemma_bits_apply(s: Seq<Unit>, t: int, st: Seq<(int, int)>)
    requires
        forall|i: int| 0 <= i < st.len() ==> fits(#[trigger] st[i], s.len() as int),
    ensures
        bits(apply_stages(s, st), t) == apply01(bits(s, t), st),
        apply_stages(s, st).len() == s.len(),
    decreases st.len(),
{
    if st.len() > 0 {
        let init = st.drop_last();
        assert forall|i: int| 0 <= i < init.len() implies fits(#[trigger] init[i], s.len() as int) by {
            assert(init[i] == st[i]);
        }
        lemma_bits_apply(s, t, init);
        let l = st.last();
        assert(fits(st[st.len() - 1], s.len() as int));
        assert(2 * (l.1 / 2) == l.1);
        lemma_bits_stage(apply_stages(s, init), t, l.0, l.1 / 2);
    }
}

proof fn lemma_apply01_concat(b: Seq<bool>, x: Seq<(int, int)>, y: Seq<(int, int)>)
    ensures
        apply01(b, x + y) == apply01(apply01(b, x), y),
    decreases y.len(),
{
    if y.len() == 0 {
        assert(x + y =~= x);
    } else {
        assert((x + y).drop_last() =~= x + y.drop_last());
        lemma_apply01_concat(b, x, y.drop_last());
    }
}

/// No `true, false, true` in positions `lo..hi` of `b`, in that order.
pub open spec fn no101(b: Seq<bool>, lo: int, hi: int) -> bool {
    forall|i: int, j: int, k: int|
        #![trigger b[i], b[j], b[k]]
        lo <= i < j < k < hi ==> !(b[i] && !b[j] && b[k])
}

/// No `false, true, false` in positions `lo..hi` of `b`, in that order.
pub open spec fn no010(b: Seq<bool>, lo: int, hi: int) -> bool {
    forall|i: int, j: int, k: int|
        #![trigger b[i], b[j], b[k]]
        lo <= i < j < k < hi ==> !(!b[i] && b[j] && !b[k])
}

/// Positions `lo..hi` of `b` rise and fall once (or fall and rise once).
pub open spec fn bitonic(b: Seq<bool>, lo: int, hi: int) -> bool {
    no101(b, lo, hi) || no010(b, lo, hi)
}

/// The lower half of a half-cleaned block: the `and` of the two halves.
proof fn lemma_clean_and(b: Seq<bool>, c: Seq<bool>, o: int, e: int, p: int)
    requires
        e > 0,
        0 <= o,
        o + 2 * e <= b.len(),
        0 <= p,
        p + e <= c.len(),
        bitonic(b, o, o + 2 * e),
        forall|i: int| 0 <= i < e ==> #[trigger] c[p + i] == (b[o + i] && b[o + i + e]),
    ensures
        bitonic(c, p, p + e),
{
    if no101(b, o, o + 2 * e) {
        assert forall|i: int, j: int, k: int|
            #![trigger c[i], c[j], c[k]]
            p <= i < j < k < p + e implies !(c[i] && !c[j] && c[k]) by {
            let (i0, j0, k0) = (i - p, j - p, k - p);
            assert(c[p + i0] == (b[o + i0] && b[o + i0 + e]));
            assert(c[p + j0] == (b[o + j0] && b[o + j0 + e]));
            assert(c[p + k0] == (b[o + k0] && b[o + k0 + e]));
            if c[i] && !c[j] && c[k] {
                if !b[o + j0] {
                    assert(!(b[o + i0] && !b[o + j0] && b[o + k0]));
                } else {
                    assert(!(b[o + i0 + e] && !b[o + j0 + e] && b[o + k0 + e]));
                }
            }
        }
    } else {
        if !no010(c, p, p + e) && !no101(c, p, p + e) {
            let (i, j, k) = choose|i: int, j: int, k: int|
                #![trigger c[i], c[j], c[k]]
                p <= i < j < k < p + e && !c[i] && c[j] && !c[k];
            let (i2, j2, k2) = choose|i: int, j: int, k: int|
                #![trigger c[i], c[j], c[k]]
                p <= i < j < k < p + e && c[i] && !c[j] && c[k];
            let (i0, j0, k0) = (i - p, j - p, k - p);
            let (a0, b0, d0) = (i2 - p, j2 - p, k2 - p);
            assert(c[p + i0] == (b[o + i0] && b[o + i0 + e]));
            assert(c[p + j0] == (b[o + j0] && b[o + j0 + e]));
            assert(c[p + k0] == (b[o + k0] && b[o + k0 + e]));
            assert(c[p + a0] == (b[o + a0] && b[o + a0 + e]));
            assert(c[p + b0] == (b[o + b0] && b[o + b0 + e]));
            assert(c[p + d0] == (b[o + d0] && b[o + d0 + e]));
            assert(no010(b, o, o + 2 * e));
            assert(!(!b[o + i0] && b[o + j0] && !b[o + k0]));
            assert(!(!b[o + i0 + e] && b[o + j0 + e] && !b[o + k0 + e]));
            assert(!(!b[o + i0] && b[o + j0] && !b[o + k0 + e]));
            assert(!b[o + i0 + e] && !b[o + k0]);
            if a0 <= i0 {
                if a0 < i0 {
                    assert(!(!b[o + k0] && b[o + a0 + e] && !b[o + i0 + e]));
                }
            }
            assert(a0 > i0);
            if d0 >= k0 {
                if d0 > k0 {
                    assert(!(!b[o + k0] && b[o + d0] && !b[o + i0 + e]));
                }
            }
            assert(d0 < k0);
            if !b[o + b0] {
                assert(!(!b[o + b0] && b[o + d0] && !b[o + k0]));
            } else {
                assert(!(!b[o + i0 + e] && b[o + a0 + e] && !b[o + b0 + e]));
            }
        }
    }
}

/// The upper half of a half-cleaned block: the `or` of the two halves.
proof fn lemma_clean_or(b: Seq<bool>, c: Seq<bool>, o: int, e: int, p: int)
    requires
        e > 0,
        0 <= o,
        o + 2 * e <= b.len(),
        0 <= p,
        p + e <= c.len(),
        bitonic(b, o, o + 2 * e),
        forall|i: int| 0 <= i < e ==> #[trigger] c[p + i] == (b[o + i] || b[o + i + e]),
    ensures
        bitonic(c, p, p + e),
{
    if no010(b, o, o + 2 * e) {
        assert forall|i: int, j: int, k: int|
            #![trigger c[i], c[j], c[k]]
            p <= i < j < k < p + e implies !(!c[i] && c[j] && !c[k]) by {
            let (i0, j0, k0) = (i - p, j - p, k - p);
            assert(c[p + i0] == (b[o + i0] || b[o + i0 + e]));
            assert(c[p + j0] == (b[o + j0] || b[o + j0 + e]));
            assert(c[p + k0] == (b[o + k0] || b[o + k0 + e]));
            if !c[i] && c[j] && !c[k] {
                if b[o + j0] {
                    assert(!(!b[o + i0] && b[o + j0] && !b[o + k0]));
                } else {
                    assert(!(!b[o + i0 + e] && b[o + j0 + e] && !b[o + k0 + e]));
                }
            }
        }
    } else {
        if !no010(c, p, p + e) && !no101(c, p, p + e) {
            let (i, j, k) = choose|i: int, j: int, k: int|
                #![trigger c[i], c[j], c[k]]
                p <= i < j < k < p + e && c[i] && !c[j] && c[k];
            let (i2, j2, k2) = choose|i: int, j: int, k: int|
                #![trigger c[i], c[j], c[k]]
                p <= i < j < k < p + e && !c[i] && c[j] && !c[k];
            let (i0, j0, k0) = (i - p, j - p, k - p);
            let (a0, b0, d0) = (i2 - p, j2 - p, k2 - p);
            assert(c[p + i0] == (b[o + i0] || b[o + i0 + e]));
            assert(c[p + j0] == (b[o + j0] || b[o + j0 + e]));
            assert(c[p + k0] == (b[o + k0] || b[o + k0 + e]));
            assert(c[p + a0] == (b[o + a0] || b[o + a0 + e]));
            assert(c[p + b0] == (b[o + b0] || b[o + b0 + e]));
            assert(c[p + d0] == (b[o + d0] || b[o + d0 + e]));
            assert(no101(b, o, o + 2 * e));
            assert(!(b[o + i0] && !b[o + j0] && b[o + k0]));
            assert(!(b[o + i0 + e] && !b[o + j0 + e] && b[o + k0 + e]));
            assert(!(b[o + i0] && !b[o + j0] && b[o + k0 + e]));
            assert(b[o + i0 + e] && b[o + k0]);
            if a0 <= i0 {
                if a0 < i0 {
                    assert(!(b[o + k0] && !b[o + a0 + e] && b[o + i0 + e]));
                }
            }
            assert(a0 > i0);
            if d0 >= k0 {
                if d0 > k0 {
                    assert(!(b[o + k0] && !b[o + d0] && b[o + i0 + e]));
                }
            }
            assert(d0 < k0);
            if b[o + b0] {
                assert(!(b[o + b0] && !b[o + d0] && b[o + k0]));
            } else {
                assert(!(b[o + i0 + e] && !b[o + a0 + e] && b[o + b0 + e]));
            }
        }
    }
}

/// In a half-cleaned block every bit of the `and` half is at most every bit
/// of the `or` half.
proof fn lemma_clean_order(b: Seq<bool>, o: int, e: int, i: int, j: int)
    requires
        e > 0,
        0 <= o,
        o + 2 * e <= b.len(),
        bitonic(b, o, o + 2 * e),
        0 <= i < e,
        0 <= j < e,
    ensures
        (b[o + i] && b[o + i + e]) ==> (b[o + j] || b[o + j + e]),
{
    if b[o + i] && b[o + i + e] && !b[o + j] && !b[o + j + e] {
        if no101(b, o, o + 2 * e) {
            if j < i {
                assert(!(b[o + i] && !b[o + j + e] && b[o + i + e]));
            } else {
                assert(!(b[o + i] && !b[o + j] && b[o + i + e]));
            }
        } else {
            if j < i {
                assert(!(!b[o + j] && b[o + i] && !b[o + j + e]));
            } else {
                assert(!(!b[o + j] && b[o + i + e] && !b[o + j + e]));
            }
        }
    }
}

proof fn lemma_div_halves(x: int, e: int)
    requires
        0 <= x,
        0 < e,
    ensures
        x / e == 2 * (x / (2 * e)) + (if x % (2 * e) >= e {
            1int
        } else {
            0int
        }),
{
    let q = x / (2 * e);
    let r = x % (2 * e);
    assert(x == q * (2 * e) + r) by (nonlinear_arith)
        requires e > 0, q == x / (2 * e), r == x % (2 * e);
    assert(0 <= r < 2 * e);
    if r >= e {
        assert(x == (2 * q + 1) * e + (r - e)) by (nonlinear_arith)
            requires x == q * (2 * e) + r;
        vstd::arithmetic::div_mod::lemma_fundamental_div_mod_converse(x, e, 2 * q + 1, r - e);
    } else {
        assert(x == (2 * q) * e + r) by (nonlinear_arith)
            requires x == q * (2 * e) + r;
        vstd::arithmetic::div_mod::lemma_fundamental_div_mod_converse(x, e, 2 * q, r);
    }
}

proof fn lemma_coarser(x: int, y: int, g: int, big: int)
    requires
        0 <= x,
        0 <= y,
        0 < g,
        0 < big,
        big % g == 0,
        x / g == y / g,
    ensures
        x / big == y / big,
{
    let r = big / g;
    assert(big == g * r) by (nonlinear_arith)
        requires g > 0, big % g == 0, r == big / g;
    assert(r > 0) by (nonlinear_arith)
        requires big == g * r, g > 0, big > 0;
    vstd::arithmetic::div_mod::lemma_div_denominator(x, g, r);
    vstd::arithmetic::div_mod::lemma_div_denominator(y, g, r);
}

proof fn lemma_mod_double(x: int, e: int)
    requires
        0 <= x,
        0 < e,
        x % e == 0,
    ensures
        x % (2 * e) == 0 || x % (2 * e) == e,
{
    lemma_div_halves(x, e);
    let q = x / (2 * e);
    let r = x % (2 * e);
    assert(x == q * (2 * e) + r) by (nonlinear_arith)
        requires e > 0, q == x / (2 * e), r == x % (2 * e);
    if r >= e {
        assert(x == (2 * q + 1) * e + (r - e)) by (nonlinear_arith)
            requires x == q * (2 * e) + r;
        vstd::arithmetic::div_mod::lemma_fundamental_div_mod_converse(x, e, 2 * q + 1, r - e);
    } else {
        assert(x == (2 * q) * e + r) by (nonlinear_arith)
            requires x == q * (2 * e) + r;
        vstd::arithmetic::div_mod::lemma_fundamental_div_mod_converse(x, e, 2 * q, r);
    }
}

proof fn lemma_block_end(o: int, m: int, n: int)
    requires
        0 <= o < n,
        0 < m,
        o % m == 0,
        n % m == 0,
    ensures
        o + m <= n,
{
    assert(o == m * (o / m)) by (nonlinear_arith)
        requires m > 0, o % m == 0;
    assert(n == m * (n / m)) by (nonlinear_arith)
        requires m > 0, n % m == 0;
    assert(o / m < n / m) by (nonlinear_arith)
        requires o == m * (o / m), n == m * (n / m), o < n, m > 0;
    assert(m * (o / m) + m <= m * (n / m)) by (nonlinear_arith)
        requires o / m < n / m, m > 0;
}

proof fn lemma_in_block(o: int, m: int, i: int)
    requires
        0 <= o,
        0 < m,
        o % m == 0,
        0 <= i < m,
    ensures
        (o + i) / m == o / m,
        (o + i) % m == i,
{
    assert(o == (o / m) * m) by (nonlinear_arith)
        requires m > 0, o % m == 0;
    vstd::arithmetic::div_mod::lemma_fundamental_div_mod_converse(o + i, m, o / m, i);
}

/// The start of the `m`-block that holds `x`.
proof fn lemma_block_start(x: int, m: int)
    requires
        0 <= x,
        0 < m,
    ensures
        0 <= (x / m) * m <= x,
        ((x / m) * m) % m == 0,
        x == (x / m) * m + x % m,
        0 <= x % m < m,
{
    assert(x == (x / m) * m + x % m) by (nonlinear_arith)
        requires m > 0;
    assert(0 <= (x / m) * m) by (nonlinear_arith)
        requires m > 0, x >= 0;
    vstd::arithmetic::div_mod::lemma_mod_multiples_basic(x / m, m);
}

/// Positions `i < j` are in the order that their block of `level` asks
/// for: ascending in even blocks, descending in odd ones.
pub open spec fn ordered(b: Seq<bool>, i: int, j: int, level: int) -> bool {
    if (i / level) % 2 == 0 {
        b[i] ==> b[j]
    } else {
        b[j] ==> b[i]
    }
}

/// Within each block of `level`, positions in different blocks of `g` are
/// in order.
pub open spec fn cross_ordered(b: Seq<bool>, level: int, g: int) -> bool {
    forall|i: int, j: int|
        0 <= i < j < b.len() && i / level == j / level && i / g != j / g ==> #[trigger] ordered(
            b,
            i,
            j,
            level,
        )
}

/// Every aligned block of `g` is bitonic.
pub open spec fn blocks_bitonic(b: Seq<bool>, g: int) -> bool {
    forall|o: int| 0 <= o && o + g <= b.len() && o % g == 0 ==> #[trigger] bitonic(b, o, o + g)
}

/// Every aligned block of `level` is sorted in its direction.
pub open spec fn blocks_sorted(b: Seq<bool>, level: int) -> bool {
    forall|i: int, j: int|
        0 <= i < j < b.len() && i / level == j / level ==> #[trigger] ordered(b, i, j, level)
}

proof fn lemma_block_values(b: Seq<bool>, level: int, e: int, o: int, i: int)
    requires
        0 < e,
        0 < level,
        level % (2 * e) == 0,
        0 <= o,
        o % (2 * e) == 0,
        o + 2 * e <= b.len(),
        0 <= i < e,
    ensures
        (o + i) / level == o / level,
        (o + i + e) / level == o / level,
        (o / level) % 2 == 0 ==> stage01(b, level, e)[o + i] == (b[o + i] && b[o + i + e])
            && stage01(b, level, e)[o + i + e] == (b[o + i] || b[o + i + e]),
        (o / level) % 2 != 0 ==> stage01(b, level, e)[o + i] == (b[o + i] || b[o + i + e])
            && stage01(b, level, e)[o + i + e] == (b[o + i] && b[o + i + e]),
{
    lemma_in_block(o, 2 * e, i);
    lemma_in_block(o, 2 * e, i + e);
    lemma_coarser(o + i, o, 2 * e, level);
    lemma_coarser(o + i + e, o, 2 * e, level);
    assert(o + i + e - e == o + i);
}

proof fn lemma_partner(b: Seq<bool>, level: int, e: int, k: int)
    requires
        0 < e,
        0 < level,
        0 <= k < b.len(),
        b.len() as int % (2 * e) == 0,
    ensures
        ({
            let pk = if k % (2 * e) < e {
                k + e
            } else {
                k - e
            };
            &&& 0 <= pk < b.len()
            &&& pk / (2 * e) == k / (2 * e)
            &&& (stage01(b, level, e)[k] == b[k] || stage01(b, level, e)[k] == b[pk])
        }),
{
    lemma_mod_parts(k, e);
    if k % (2 * e) < e {
        lemma_pair_in_bounds(k, e, b.len() as int);
    }
}

proof fn lemma_merge_step(b: Seq<bool>, level: int, e: int)
    requires
        0 < e,
        0 < level,
        level % (2 * e) == 0,
        b.len() as int % (2 * e) == 0,
        cross_ordered(b, level, 2 * e),
        blocks_bitonic(b, 2 * e),
    ensures
        cross_ordered(stage01(b, level, e), level, e),
        blocks_bitonic(stage01(b, level, e), e),
{
    let c = stage01(b, level, e);
    let n = b.len() as int;
    assert forall|q: int| 0 <= q && q + e <= c.len() && q % e == 0 implies #[trigger] bitonic(c, q, q + e) by {
        lemma_mod_double(q, e);
        let o = if q % (2 * e) == 0 {
            q
        } else {
            q - e
        };
        if q % (2 * e) != 0 {
            lemma_mod_parts(q, e);
        }
        assert(o % (2 * e) == 0);
        lemma_block_end(o, 2 * e, n);
        assert(bitonic(b, o, o + 2 * e));
        let lo = o;
        let hi = o + e;
        assert forall|i: int| 0 <= i < e implies (#[trigger] c[lo + i] == (if (o / level) % 2 == 0 {
            b[o + i] && b[o + i + e]
        } else {
            b[o + i] || b[o + i + e]
        })) && c[hi + i] == (if (o / level) % 2 == 0 {
            b[o + i] || b[o + i + e]
        } else {
            b[o + i] && b[o + i + e]
        }) by {
            lemma_block_values(b, level, e, o, i);
            assert(hi + i == o + i + e);
        }
        if (o / level) % 2 == 0 {
            if q == o {
                lemma_clean_and(b, c, o, e, lo);
            } else {
                assert forall|i: int| 0 <= i < e implies #[trigger] c[hi + i] == (b[o + i] || b[o + i
                    + e]) by {
                    lemma_block_values(b, level, e, o, i);
                    assert(hi + i == o + i + e);
                }
                lemma_clean_or(b, c, o, e, hi);
            }
        } else {
            if q == o {
                lemma_clean_or(b, c, o, e, lo);
            } else {
                assert forall|i: int| 0 <= i < e implies #[trigger] c[hi + i] == (b[o + i] && b[o + i
                    + e]) by {
                    lemma_block_values(b, level, e, o, i);
                    assert(hi + i == o + i + e);
                }
                lemma_clean_and(b, c, o, e, hi);
            }
        }
    }
    assert forall|i: int, j: int|
        0 <= i < j < c.len() && i / level == j / level && i / e != j / e implies #[trigger] ordered(
        c,
        i,
        j,
        level,
    ) by {
        lemma_div_halves(i, e);
        lemma_div_halves(j, e);
        vstd::arithmetic::div_mod::lemma_div_is_ordered(i, j, 2 * e);
        if i / (2 * e) == j / (2 * e) {
            lemma_block_start(i, 2 * e);
            lemma_block_start(j, 2 * e);
            let o = (i / (2 * e)) * (2 * e);
            assert(i % (2 * e) < e && j % (2 * e) >= e);
            let i0 = i % (2 * e);
            let j0 = j % (2 * e) - e;
            lemma_block_end(o, 2 * e, n);
            assert(bitonic(b, o, o + 2 * e));
            lemma_block_values(b, level, e, o, i0);
            lemma_block_values(b, level, e, o, j0);
            lemma_clean_order(b, o, e, i0, j0);
            lemma_clean_order(b, o, e, j0, i0);
            assert(i == o + i0);
            assert(j == o + j0 + e);
        } else {
            lemma_partner(b, level, e, i);
            lemma_partner(b, level, e, j);
            let pi = if i % (2 * e) < e {
                i + e
            } else {
                i - e
            };
            let pj = if j % (2 * e) < e {
                j + e
            } else {
                j - e
            };
            assert forall|x: int, y: int|
                (x == i || x == pi) && (y == j || y == pj) implies ordered(b, x, y, level) && x / level
                == i / level by {
                if x >= y {
                    vstd::arithmetic::div_mod::lemma_div_is_ordered(y, x, 2 * e);
                }
                lemma_coarser(x, i, 2 * e, level);
                lemma_coarser(y, j, 2 * e, level);
                assert(ordered(b, x, y, level));
            }
            assert(ordered(b, i, j, level));
            assert(ordered(b, i, pj, level));
            assert(ordered(b, pi, j, level));
            assert(ordered(b, pi, pj, level));
        }
    }
}

proof fn lemma_pass_start(b: Seq<bool>, level: int)
    requires
        2 <= level,
        level % 2 == 0,
        blocks_sorted(b, level / 2),
    ensures
        cross_ordered(b, level, level),
        blocks_bitonic(b, level),
{
    let h = level / 2;
    assert forall|o: int| 0 <= o && o + level <= b.len() && o % level == 0 implies #[trigger] bitonic(
        b,
        o,
        o + level,
    ) by {
        assert forall|i: int, j: int, k: int|
            #![trigger b[i], b[j], b[k]]
            o <= i < j < k < o + level implies !(b[i] && !b[j] && b[k]) by {
            lemma_in_block(o, level, i - o);
            lemma_in_block(o, level, j - o);
            lemma_in_block(o, level, k - o);
            lemma_div_halves(i, h);
            lemma_div_halves(j, h);
            lemma_div_halves(k, h);
            if j - o < h {
                assert(ordered(b, i, j, h));
            } else {
                assert(ordered(b, j, k, h));
            }
        }
    }
}

proof fn lemma_pass_end(b: Seq<bool>, level: int)
    requires
        0 < level,
        cross_ordered(b, level, 1),
    ensures
        blocks_sorted(b, level),
{
    assert forall|i: int, j: int| 0 <= i < j < b.len() && i / level == j / level implies #[trigger] ordered(
        b,
        i,
        j,
        level,
    ) by {
        assert(i / 1 == i && j / 1 == j);
    }
}

proof fn lemma_apply01_len(b: Seq<bool>, st: Seq<(int, int)>)
    ensures
        apply01(b, st).len() == b.len(),
    decreases st.len(),
{
    if st.len() > 0 {
        lemma_apply01_len(b, st.drop_last());
    }
}

proof fn lemma_single(b: Seq<bool>, x: (int, int))
    ensures
        apply01(b, seq![x]) == stage01(b, x.0, x.1 / 2),
{
    let one = seq![x];
    assert(one.drop_last() =~= Seq::<(int, int)>::empty());
    assert(one.last() == x);
    assert(apply01(b, Seq::<(int, int)>::empty()) == b);
    assert(apply01(b, one) == stage01(apply01(b, one.drop_last()), x.0, x.1 / 2));
}

proof fn lemma_pass(b: Seq<bool>, k: nat, p: nat, hi: nat)
    requires
        b.len() == pow2(k),
        hi <= p <= k,
        cross_ordered(b, pow2(p) as int, pow2(hi) as int),
        blocks_bitonic(b, pow2(hi) as int),
    ensures
        cross_ordered(apply01(b, inner_stages(p, hi)), pow2(p) as int, 1),
        blocks_bitonic(apply01(b, inner_stages(p, hi)), 1),
        apply01(b, inner_stages(p, hi)).len() == b.len(),
    decreases hi,
{
    if hi == 0 {
        assert(inner_stages(p, 0) =~= Seq::<(int, int)>::empty());
    } else {
        let x = (pow2(p) as int, pow2(hi) as int);
        let rest = inner_stages(p, (hi - 1) as nat);
        assert(inner_stages(p, hi) == seq![x] + rest);
        lemma_apply01_concat(b, seq![x], rest);
        lemma_single(b, x);
        let e = pow2((hi - 1) as nat) as int;
        assert(pow2(hi) == 2 * pow2((hi - 1) as nat));
        lemma_pow2_pos((hi - 1) as nat);
        lemma_pow2_pos(p);
        lemma_pow2_divides(hi, p);
        lemma_pow2_divides(hi, k);
        lemma_merge_step(b, pow2(p) as int, e);
        let c = stage01(b, pow2(p) as int, e);
        assert(pow2(hi) as int / 2 == e);
        lemma_pass(c, k, p, (hi - 1) as nat);
    }
}

proof fn lemma_network01(b: Seq<bool>, k: nat, p: nat)
    requires
        b.len() == pow2(k),
        p <= k,
    ensures
        blocks_sorted(apply01(b, stages(p)), pow2(p) as int),
        apply01(b, stages(p)).len() == b.len(),
    decreases p,
{
    lemma_pow2_pos(p);
    if p == 0 {
        assert(stages(0) =~= Seq::<(int, int)>::empty());
        assert forall|i: int, j: int| 0 <= i < j < b.len() && i / 1 == j / 1 implies #[trigger] ordered(
            b,
            i,
            j,
            1,
        ) by {
            assert(i / 1 == i && j / 1 == j);
        }
    } else {
        let prev = (p - 1) as nat;
        lemma_network01(b, k, prev);
        let x = apply01(b, stages(prev));
        lemma_apply01_concat(b, stages(prev), inner_stages(p, p));
        assert(pow2(p) == 2 * pow2(prev));
        lemma_pow2_pos(prev);
        assert(pow2(p) as int / 2 == pow2(prev) as int);
        lemma_pass_start(x, pow2(p) as int);
        lemma_pass(x, k, p, p);
        lemma_pass_end(apply01(x, inner_stages(p, p)), pow2(p) as int);
    }
}

/// The network sorts every input: after all its stages, `2^k` units stand
/// in ascending order of `hash_id`.
pub proof fn lemma_network_sorts(s: Seq<Unit>, k: nat)
    requires
        s.len() == pow2(k),
    ensures
        sorted_by_hash(network(s, k)),
{
    let st = stages(k);
    let n = s.len() as int;
    lemma_stage_count(k);
    assert forall|i: int| 0 <= i < st.len() implies fits(#[trigger] st[i], n) by {
        let e = st[i];
        let (p, q) = choose|p: nat, q: nat| 1 <= q <= p <= k && e.0 == pow2(p) && e.1 == pow2(q);
        lemma_pow2_pos(p);
        lemma_pow2_divides(q, k);
        assert(pow2(q) == 2 * pow2((q - 1) as nat));
        lemma_pow2_pos((q - 1) as nat);
    }
    let out = network(s, k);
    assert forall|i: int, j: int| 0 <= i <= j < out.len() implies out[i].hash_id <= out[j].hash_id by {
        if out[i].hash_id > out[j].hash_id {
            let t = out[i].hash_id as int;
            lemma_bits_apply(s, t, st);
            let b = bits(s, t);
            lemma_network01(b, k, k);
            let r = apply01(b, st);
            assert(r == bits(out, t));
            assert(r[i] && !r[j]);
            lemma_pow2_pos(k);
            vstd::arithmetic::div_mod::lemma_basic_div(i, n);
            vstd::arithmetic::div_mod::lemma_basic_div(j, n);
            assert(ordered(r, i, j, pow2(k) as int));
        }
    }
}

} // verus!
