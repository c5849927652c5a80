//! Fixed-width address words.
//!
//! Every address of either family is held in a `u128`; a family of width `w`
//! only ever uses the low `w` bits. The functions here are written once and
//! take the width as an argument, so both families share the same arithmetic.
use vstd::prelude::*;
use vstd::arithmetic::power2::*;
use vstd::arithmetic::div_mod::*;
use vstd::arithmetic::mul::*;
use vstd::bits::*;

verus! {

/// The number `2^n - 1`: the low `n` bits set.
pub open spec fn ones(n: nat) -> nat {
    (pow2(n) - 1) as nat
}

/// `a` with its low `h` bits cleared.
pub open spec fn clear_low(a: nat, h: nat) -> nat {
    a / pow2(h) * pow2(h)
}

/// `a` with its low `h` bits set.
pub open spec fn set_low(a: nat, h: nat) -> nat {
    clear_low(a, h) + ones(h)
}

/// The word with the low `n` bits set, written with a shift (`n <= 128`).
pub open spec fn low_bits(n: u128) -> u128 {
    if n == 0 {
        0
    } else {
        u128::MAX >> ((128 - n) as u128)
    }
}

/// A `u128` holds exactly the numbers below `2^128`.
pub proof fn lemma_pow2_128()
    ensures
        pow2(128) == u128::MAX as nat + 1,
{
    lemma2_to64();
    lemma_pow2_adds(64, 64);
}

/// Shifting left by `s` multiplies by `2^s` when nothing is shifted out.
pub proof fn lemma_shl_is_mul(x: u128, s: u128)
    requires
        s < 128,
        x * pow2(s as nat) <= u128::MAX,
    ensures
        x << s == x * pow2(s as nat),
    decreases s,
{
    lemma2_to64();
    if s == 0 {
        assert(x << 0 == x) by (bit_vector);
        assert(x * pow2(0) == x);
    } else {
        let t = (s - 1) as u128;
        lemma_pow2_adds(t as nat, 1);
        lemma_pow2_pos(t as nat);
        assert(x * pow2(t as nat) <= x * pow2(s as nat)) by (nonlinear_arith)
            requires
                pow2(s as nat) == pow2(t as nat) * 2,
        ;
        lemma_shl_is_mul(x, t);
        let y = x << t;
        assert(y * 2 <= u128::MAX) by (nonlinear_arith)
            requires
                y == x * pow2(t as nat),
                x * pow2(s as nat) <= u128::MAX,
                pow2(s as nat) == pow2(t as nat) * 2,
        ;
        assert(x << s == (x << t) * 2) by (bit_vector)
            requires
                t < 127,
                s == t + 1,
                (x << t) * 2 <= u128::MAX,
        ;
        assert(x * pow2(s as nat) == (x * pow2(t as nat)) * 2) by (nonlinear_arith)
            requires
                pow2(s as nat) == pow2(t as nat) * 2,
        ;
        assert(x << s == y * 2);
    }
}

/// `low_bits(n)` is the number `2^n - 1`.
pub proof fn lemma_low_bits_value(n: u128)
    requires
        n <= 128,
    ensures
        low_bits(n) as nat == ones(n as nat),
{
    lemma2_to64();
    if n > 0 {
        let s = (128 - n) as u128;
        lemma_u128_shr_is_div(u128::MAX, s);
        lemma_pow2_128();
        lemma_pow2_adds(n as nat, s as nat);
        lemma_pow2_pos(n as nat);
        lemma_pow2_pos(s as nat);
        let q = pow2(n as nat) as int - 1;
        let d = pow2(s as nat) as int;
        assert(u128::MAX as int == q * d + (d - 1)) by (nonlinear_arith)
            requires
                u128::MAX as int + 1 == pow2(n as nat) * pow2(s as nat),
                q == pow2(n as nat) as int - 1,
                d == pow2(s as nat) as int,
        ;
        lemma_fundamental_div_mod_converse(u128::MAX as int, d, q, d - 1);
    }
}

/// A shorter run of low ones lies inside a longer one.
pub proof fn lemma_low_bits_nested(k: u128, n: u128)
    by (bit_vector)
    requires
        k <= n <= 128,
    ensures
        low_bits(k) & low_bits(n) == low_bits(k),
        low_bits(n) - low_bits(k) == low_bits(n) & !low_bits(k),
{
}

/// Bit `i` of `x`, counted from the least significant bit, is set.
pub open spec fn bit_set(x: u128, i: u128) -> bool {
    (x >> i) & 1 == 1
}

/// Bit `i` of `low_bits(w) & !low_bits(h)` is set exactly when `h <= i < w`.
pub proof fn lemma_mask_bits_word(w: u128, h: u128)
    by (bit_vector)
    requires
        h <= w <= 128,
    ensures
        forall|i: u128| i < 128 ==> (#[trigger] bit_set(low_bits(w) & !low_bits(h), i) <==> (h <= i < w)),
{
}

/// A word no larger than `low_bits(n)` has no bit outside it.
proof fn lemma_below_low_bits(a: u128, n: u128)
    by (bit_vector)
    requires
        n <= 128,
        a <= low_bits(n),
    ensures
        a & !low_bits(n) == 0,
        a & low_bits(n) == a,
{
}

/// Clearing the low `h` bits is a right shift followed by a left shift.
proof fn lemma_clear_is_shifts(a: u128, h: u128)
    by (bit_vector)
    requires
        h < 128,
    ensures
        a & !low_bits(h) == (a >> h) << h,
{
}

/// Disjoint words are joined by `|` as by `+`.
proof fn lemma_or_is_add(a: u128, b: u128, m: u128)
    by (bit_vector)
    requires
        a & m == 0,
        b & !m == 0,
    ensures
        a | b == a + b,
        a + b <= u128::MAX,
{
}

/// `a / 2^h * 2^h` does not exceed `a`, and what it drops is below `2^h`.
pub proof fn lemma_clear_low_bounds(a: nat, h: nat)
    ensures
        clear_low(a, h) <= a,
        a < clear_low(a, h) + pow2(h),
        clear_low(a, h) % pow2(h) == 0,
{
    lemma_pow2_pos(h);
    lemma_fundamental_div_mod(a as int, pow2(h) as int);
    lemma_mod_multiples_basic(a as int / pow2(h) as int, pow2(h) as int);
    lemma_mod_pos_bound(a as int, pow2(h) as int);
}

/// Setting the low `h` bits of a `w`-bit number stays below `2^w`.
pub proof fn lemma_set_low_below(a: nat, h: nat, w: nat)
    requires
        h <= w,
        a < pow2(w),
    ensures
        set_low(a, h) < pow2(w),
        clear_low(a, h) < pow2(w),
{
    lemma_pow2_pos(h);
    lemma_pow2_adds((w - h) as nat, h);
    let q = a / pow2(h);
    lemma_div_is_ordered(a as int, pow2(w) as int - 1, pow2(h) as int);
    assert(pow2(w) as int - 1 == (pow2((w - h) as nat) as int - 1) * pow2(h) + (pow2(h) as int - 1)) by (nonlinear_arith)
        requires
            pow2(w) == pow2((w - h) as nat) * pow2(h),
    ;
    lemma_fundamental_div_mod_converse(pow2(w) as int - 1, pow2(h) as int, pow2((w - h) as nat) as int - 1, pow2(h) as int - 1);
    assert(q * pow2(h) + pow2(h) <= pow2(w)) by (nonlinear_arith)
        requires
            q <= pow2((w - h) as nat) as int - 1,
            pow2(w) == pow2((w - h) as nat) * pow2(h),
    ;
}

/// The word with the low `n` bits set (`n <= 128`).
pub fn low_ones(n: u8) -> (r: u128)
    requires
        n <= 128,
    ensures
        r == low_bits(n as u128),
        r as nat == ones(n as nat),
{
    proof {
        lemma_low_bits_value(n as u128);
    }
    if n == 0 {
        0
    } else {
        u128::MAX >> (128 - n)
    }
}

/// The prefix mask is the number `2^w - 2^(w - p)`.
pub proof fn lemma_prefix_mask_word(w: u8, p: u8)
    requires
        p <= w <= 128,
    ensures
        prefix_mask_spec(w, p) as nat == pow2(w as nat) - pow2((w - p) as nat),
        low_bits(w as u128) - low_bits((w - p) as u128) == prefix_mask_spec(w, p),
{
    lemma_low_bits_value(w as u128);
    lemma_low_bits_value((w - p) as u128);
    lemma_low_bits_nested((w - p) as u128, w as u128);
    lemma_pow2_pos(w as nat);
    lemma_pow2_pos((w - p) as nat);
}

/// The mask of prefix `p` in a `w`-bit word: the top `p` of the `w` bits set.
pub fn prefix_mask(w: u8, p: u8) -> (r: u128)
    requires
        p <= w <= 128,
    ensures
        r as nat == pow2(w as nat) - pow2((w - p) as nat),
        r == prefix_mask_spec(w, p),
{
    proof {
        lemma_prefix_mask_word(w, p);
    }
    low_ones(w) - low_ones(w - p)
}

/// Masking a `w`-bit word with the prefix mask clears its low `w - p` bits.
pub proof fn lemma_network_word(a: u128, w: u8, p: u8)
    requires
        p <= w <= 128,
        a < pow2(w as nat),
    ensures
        (a & prefix_mask_spec(w, p)) as nat == clear_low(a as nat, (w - p) as nat),
        (a & prefix_mask_spec(w, p)) & low_bits((w - p) as u128) == 0,
{
    let m = prefix_mask_spec(w, p);
    let h: u8 = (w - p) as u8;
    lemma_low_bits_value(w as u128);
    lemma_below_low_bits(a, w as u128);
    let lw = low_bits(w as u128);
    let lh = low_bits(h as u128);
    assert(a & (lw & !lh) == a & !lh) by (bit_vector)
        requires
            a & !lw == 0,
    ;
    assert((a & !lh) & lh == 0) by (bit_vector);
    if h < 128 {
        lemma_clear_is_shifts(a, h as u128);
        lemma_u128_shr_is_div(a, h as u128);
        let q = a >> (h as u128);
        lemma_pow2_pos(h as nat);
        lemma_div_is_ordered(a as int, u128::MAX as int, pow2(h as nat) as int);
        lemma_fundamental_div_mod(a as int, pow2(h as nat) as int);
        lemma_mod_pos_bound(a as int, pow2(h as nat) as int);
        assert(q * pow2(h as nat) <= a) by {
            lemma_fundamental_div_mod(a as int, pow2(h as nat) as int);
        }
        lemma_shl_is_mul(q, h as u128);
        assert(a & m == a & !lh);
        assert((a & m) as nat == q * pow2(h as nat));
        assert(q == a as nat / pow2(h as nat));
        assert((a & m) as nat == clear_low(a as nat, h as nat));
    } else {
        lemma_pow2_128();
        assert(a & !low_bits(128) == 0) by (bit_vector);
        assert(a & m == 0);
        lemma_basic_div(a as int, pow2(128) as int);
        assert((a & m) as nat == clear_low(a as nat, h as nat));
    }
}

/// Setting the host bits after masking gives `a` with its low `w - p` bits set.
pub proof fn lemma_broadcast_word(a: u128, w: u8, p: u8)
    requires
        p <= w <= 128,
        a < pow2(w as nat),
    ensures
        ((a & prefix_mask_spec(w, p)) | low_bits((w - p) as u128)) as nat == set_low(a as nat, (w - p) as nat),
{
    lemma_network_word(a, w, p);
    lemma_low_bits_value((w - p) as u128);
    let l = low_bits((w - p) as u128);
    assert(l & !l == 0) by (bit_vector);
    lemma_or_is_add(a & prefix_mask_spec(w, p), l, l);
}

/// Clears the low `w - p` bits of a `w`-bit word `a` by masking with the prefix mask.
pub fn clear_host_bits(a: u128, w: u8, p: u8) -> (r: u128)
    requires
        p <= w <= 128,
        a < pow2(w as nat),
    ensures
        r as nat == clear_low(a as nat, (w - p) as nat),
        r == a & prefix_mask_spec(w, p),
{
    proof {
        lemma_network_word(a, w, p);
    }
    a & prefix_mask(w, p)
}

/// Sets the low `w - p` bits of a `w`-bit word `a`, after clearing them.
pub fn fill_host_bits(a: u128, w: u8, p: u8) -> (r: u128)
    requires
        p <= w <= 128,
        a < pow2(w as nat),
    ensures
        r as nat == set_low(a as nat, (w - p) as nat),
        r == (a & prefix_mask_spec(w, p)) | low_bits((w - p) as u128),
{
    proof {
        lemma_broadcast_word(a, w, p);
    }
    clear_host_bits(a, w, p) | low_ones(w - p)
}

/// A multiple of `2^h` has its low `h` bits clear.
proof fn lemma_multiple_clear(base: u128, h: u128)
    requires
        h <= 128,
        base as nat % pow2(h as nat) == 0,
    ensures
        base & low_bits(h) == 0,
{
    lemma_pow2_pos(h as nat);
    if h == 128 {
        lemma_pow2_128();
        lemma_small_mod(base as nat, pow2(128));
        assert(0u128 & low_bits(128) == 0) by (bit_vector);
    } else {
        let q = base as nat / pow2(h as nat);
        lemma_fundamental_div_mod(base as int, pow2(h as nat) as int);
        lemma_div_is_ordered(base as int, u128::MAX as int, pow2(h as nat) as int);
        assert(q * pow2(h as nat) == base as nat);
        let qq = q as u128;
        lemma_shl_is_mul(qq, h);
        assert((qq << h) & low_bits(h) == 0) by (bit_vector)
            requires
                h < 128,
        ;
    }
}

/// The address of block `i` of size `2^(w - t)` inside the network `base`
/// of prefix `p`: `((i << (w - t)) & (!mask(p) & mask(t))) | base`, where
/// `base` is a multiple of `2^(w - p)` and `i` is below `2^(t - p)`.
pub fn block_address(base: u128, w: u8, p: u8, t: u8, i: u128) -> (r: u128)
    requires
        p <= t <= w <= 128,
        base as nat % pow2((w - p) as nat) == 0,
        i < pow2((t - p) as nat),
    ensures
        r as nat == base + i * pow2((w - t) as nat),
{
    let s: u8 = w - t;
    let h: u8 = w - p;
    proof {
        lemma_multiple_clear(base, h as u128);
        lemma2_to64();
    }
    if s == 128 {
        proof {
            assert(i == 0);
        }
        return base;
    }
    let sel = !prefix_mask(w, p) & prefix_mask(w, t);
    proof {
        lemma_pow2_adds((h - s) as nat, s as nat);
        lemma_pow2_pos(s as nat);
        assert(i * pow2(s as nat) + pow2(s as nat) <= pow2(h as nat)) by (nonlinear_arith)
            requires
                i < pow2((h - s) as nat),
                pow2(h as nat) == pow2((h - s) as nat) * pow2(s as nat),
        ;
        lemma_low_bits_value(h as u128);
        lemma_pow2_128();
        if h < 128 {
            lemma_pow2_strictly_increases(h as nat, 128);
        }
        lemma_shl_is_mul(i, s as u128);
    }
    let y = i << s;
    proof {
        let lw = low_bits(w as u128);
        let lh = low_bits(h as u128);
        let ls = low_bits(s as u128);
        lemma_below_low_bits(y, h as u128);
        lemma_low_bits_nested(h as u128, w as u128);
        let ss = s as u128;
        assert((i << ss) & low_bits(ss) == 0) by (bit_vector)
            requires
                ss < 128,
        ;
        assert(y & (!(lw & !lh) & (lw & !ls)) == y) by (bit_vector)
            requires
                y & !lh == 0,
                y & ls == 0,
                lh & lw == lh,
        ;
        lemma_or_is_add(base, y, lh);
        assert(sel == !(lw & !lh) & (lw & !ls));
        assert((y & sel) | base == base | y) by (bit_vector)
            requires
                y & sel == y,
        ;
    }
    (y & sel) | base
}

/// `k` is the least exponent with `2^k >= n`: for `n >= 1` this is
/// `ceil(log2(n))`, and for `n == 0` it is `0`.
pub open spec fn is_ceil_log2(k: nat, n: nat) -> bool {
    &&& n <= pow2(k)
    &&& (k == 0 || pow2((k - 1) as nat) < n)
}

/// At most one exponent is the least with `2^k >= n`.
pub proof fn lemma_ceil_log2_unique(k1: nat, k2: nat, n: nat)
    requires
        is_ceil_log2(k1, n),
        is_ceil_log2(k2, n),
    ensures
        k1 == k2,
{
    if k1 + 1 < k2 {
        lemma_pow2_strictly_increases(k1, (k2 - 1) as nat);
    } else if k2 + 1 < k1 {
        lemma_pow2_strictly_increases(k2, (k1 - 1) as nat);
    }
}

/// Some exponent is the least with `2^k >= n`.
pub proof fn lemma_ceil_log2_exists(n: nat)
    ensures
        exists|k: nat| is_ceil_log2(k, n),
    decreases n,
{
    lemma2_to64();
    if n <= 1 {
        assert(is_ceil_log2(0, n));
    } else {
        let m = ((n + 1) / 2) as nat;
        lemma_ceil_log2_exists(m);
        let k = choose|k: nat| is_ceil_log2(k, m);
        lemma_pow2_adds(k, 1);
        if k > 0 {
            lemma_pow2_adds((k - 1) as nat, 1);
        }
        assert(is_ceil_log2(k + 1, n));
    }
}

/// The least `k` with `2^k >= n`: `ceil(log2(n))` for `n >= 1`, and `0` for `n == 0`.
pub open spec fn ceil_log2_of(n: nat) -> nat {
    choose|k: nat| is_ceil_log2(k, n)
}

/// `ceil_log2_of` is the least exponent with `2^k >= n`.
pub proof fn lemma_ceil_log2_of(n: nat)
    ensures
        is_ceil_log2(ceil_log2_of(n), n),
        forall|k: nat| is_ceil_log2(k, n) ==> k == ceil_log2_of(n),
{
    lemma_ceil_log2_exists(n);
    assert forall|k: nat| is_ceil_log2(k, n) implies k == ceil_log2_of(n) by {
        lemma_ceil_log2_unique(k, ceil_log2_of(n), n);
    }
}

/// The least `k` with `2^k >= n`.
pub fn ceil_log2(n: u32) -> (k: u8)
    ensures
        k <= 32,
        k == ceil_log2_of(n as nat),
{
    let mut k: u8 = 0;
    let mut pow: u64 = 1;
    proof {
        lemma2_to64();
    }
    while pow < n as u64
        invariant
            k <= 32,
            pow as nat == pow2(k as nat),
            k == 0 || pow2((k - 1) as nat) < n,
        decreases 32 - k,
    {
        proof {
            lemma2_to64();
            if k >= 32 {
                if k > 32 {
                    lemma_pow2_strictly_increases(32, k as nat);
                }
            }
            lemma_pow2_adds(k as nat, 1);
        }
        pow = pow * 2;
        k = k + 1;
    }
    proof {
        assert(is_ceil_log2(k as nat, n as nat));
        lemma_ceil_log2_of(n as nat);
    }
    k
}

/// The prefix mask as a value, for use in specifications.
pub open spec fn prefix_mask_spec(w: u8, p: u8) -> u128 {
    low_bits(w as u128) & !low_bits((w - p) as u128)
}

} // verus!
