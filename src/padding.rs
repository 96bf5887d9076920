use vstd::prelude::*;

verus! {

/// `2^e`.
pub open spec fn pow2(e: nat) -> nat
    decreases e,
{
    if e == 0 {
        1
    } else {
        2 * pow2((e - 1) as nat)
    }
}

/// `n` is a power of two.
pub open spec fn is_pow2(n: int) -> bool {
    exists|e: nat| pow2(e) == n
}

/// `r` is the least power `2^e` with `e >= base` that is at least `input`.
pub open spec fn least_pow2_from(r: int, input: int, base: nat) -> bool {
    exists|e: nat|
        #![trigger pow2(e)]
        e >= base && pow2(e) == r && input <= r && (e == base || pow2((e - 1) as nat) < input)
}

pub proof fn lemma_pow2_pos(e: nat)
    ensures
        pow2(e) >= 1,
    decreases e,
{
    if e > 0 {
        lemma_pow2_pos((e - 1) as nat);
    }
}

pub proof fn lemma_pow2_monotone(a: nat, b: nat)
    requires
        a <= b,
    ensures
        pow2(a) <= pow2(b),
    decreases b,
{
    if a < b {
        lemma_pow2_monotone(a, (b - 1) as nat);
        lemma_pow2_pos((b - 1) as nat);
    }
}

pub proof fn lemma_pow2_strict(a: nat, b: nat)
    requires
        a < b,
    ensures
        pow2(a) < pow2(b),
    decreases b,
{
    lemma_pow2_monotone(a, (b - 1) as nat);
    lemma_pow2_pos((b - 1) as nat);
}

pub proof fn lemma_pow2_30()
    ensures
        pow2(30) == 0x4000_0000,
{
    reveal_with_fuel(pow2, 31);
}

/// Smallest power of two `2^e` with `e >= base` that is not below `input`.
pub fn nearest_base(input: i32, base: i32) -> (r: i32)
    requires
        0 <= base <= 30,
        input <= 0x4000_0000,
    ensures
        least_pow2_from(r as int, input as int, base as nat),
{
    let mut e: i32 = base;
    let mut num: i32 = 1;
    let mut k: i32 = 0;
    while k < base
        invariant
            0 <= k <= base <= 30,
            e == base,
            num as int == pow2(k as nat),
        decreases base - k,
    {
        proof {
            lemma_pow2_monotone((k + 1) as nat, 30);
            lemma_pow2_30();
        }
        assert(pow2((k + 1) as nat) == 2 * pow2(k as nat));
        num = num * 2;
        k = k + 1;
    }
    while input > num
        invariant
            0 <= base <= e <= 30,
            num as int == pow2(e as nat),
            input <= 0x4000_0000,
            e == base || pow2((e - 1) as nat) < input,
        decreases 30 - e,
    {
        proof {
            lemma_pow2_30();
            if e >= 30 {
                lemma_pow2_monotone(30, e as nat);
            } else {
                lemma_pow2_monotone((e + 1) as nat, 30);
            }
        }
        assert(pow2((e + 1) as nat) == 2 * pow2(e as nat));
        num = num * 2;
        e = e + 1;
    }
    proof {
        lemma_pow2_pos(e as nat);
        assert(pow2(e as nat) == num as int);
    }
    num
}

/// The number of unit slots allocated for `size_x * size_y` units: the
/// smallest power of two that holds them all.
pub fn padded_count(size_x: u32, size_y: u32) -> (r: u32)
    requires
        size_x as int * size_y as int <= 0x4000_0000,
    ensures
        least_pow2_from(r as int, size_x as int * size_y as int, 0),
{
    proof {
        assert(size_x as int * size_y as int >= 0) by (nonlinear_arith);
    }
    let product = (size_x as u64 * size_y as u64) as i32;
    let r = nearest_base(product, 0);
    proof {
        let e = choose|e: nat| #![trigger pow2(e)]
            e >= 0 && pow2(e) == r as int && product as int <= r as int && (e == 0 || pow2((e - 1) as nat) < product as int);
        lemma_pow2_pos(e);
    }
    r as u32
}

} // verus!
