//! In-place bit-reversal reordering of an interleaved complex buffer.
use crate::transform::radix2::{is_pow2, lemma_pow2_step};
use vstd::arithmetic::div_mod::{
    lemma_fundamental_div_mod, lemma_fundamental_div_mod_converse, lemma_mod_pos_bound,
};
use vstd::prelude::*;

verus! {

/// `2^e`.
pub open spec fn exp2(e: nat) -> nat
    decreases e,
{
    if e == 0 {
        1
    } else {
        2 * exp2((e - 1) as nat)
    }
}

/// Base-2 logarithm of a power of two.
pub open spec fn log2(n: int) -> nat
    decreases n,
{
    if n <= 1 {
        0
    } else {
        1 + log2(n / 2)
    }
}

/// The lowest `b` bits of `c` in reverse order.
pub open spec fn bit_rev(c: nat, b: nat) -> nat
    decreases b,
{
    if b == 0 {
        0
    } else {
        (c % 2) * exp2((b - 1) as nat) + bit_rev(c / 2, (b - 1) as nat)
    }
}

/// The first `n` complex samples of `s` reordered so that sample `p` moves to the
/// position whose `b`-bit index is `p` read backwards.
pub open spec fn bit_reversed<T>(s: Seq<T>, n: int, b: nat) -> Seq<T> {
    Seq::new(
        s.len(),
        |e: int|
            if 0 <= e < 2 * n {
                s[2 * bit_rev((e / 2) as nat, b) + e % 2]
            } else {
                s[e]
            },
    )
}

pub proof fn lemma_exp2_pos(e: nat)
    ensures
        exp2(e) >= 1,
    decreases e,
{
    if e > 0 {
        lemma_exp2_pos((e - 1) as nat);
    }
}

pub proof fn lemma_log2_exp2(n: int)
    requires
        is_pow2(n),
    ensures
        exp2(log2(n)) == n,
    decreases n,
{
    if n > 1 {
        lemma_pow2_step(n);
        lemma_log2_exp2(n / 2);
    }
}

pub proof fn lemma_bit_rev_bound(c: nat, b: nat)
    ensures
        bit_rev(c, b) < exp2(b),
    decreases b,
{
    if b > 0 {
        let e = exp2((b - 1) as nat);
        lemma_bit_rev_bound(c / 2, (b - 1) as nat);
        assert((c % 2) * e <= e) by (nonlinear_arith)
            requires
                c % 2 <= 1,
                e >= 0,
        ;
    }
}

/// Reversing `b` bits puts the top bit of `c` at the bottom.
proof fn lemma_bit_rev_top(c: nat, b: nat)
    requires
        b >= 1,
        c < exp2(b),
    ensures
        bit_rev(c, b) == 2 * bit_rev(c % exp2((b - 1) as nat), (b - 1) as nat) + c / exp2(
            (b - 1) as nat,
        ),
    decreases b,
{
    let h = exp2((b - 1) as nat);
    lemma_exp2_pos((b - 1) as nat);
    if b == 1 {
        assert(h == 1);
        assert(c < 2);
        assert(exp2(0) == 1);
        assert(bit_rev(c, 1) == (c % 2) * exp2(0) + bit_rev(c / 2, 0));
        assert(bit_rev(c, 1) == c % 2);
        assert(bit_rev(c % 1, 0) == 0);
    } else {
        let g = exp2((b - 2) as nat);
        lemma_exp2_pos((b - 2) as nat);
        assert(h == 2 * g);
        lemma_bit_rev_top(c / 2, (b - 1) as nat);
        let q = c / h;
        let m = c % h;
        lemma_fundamental_div_mod(c as int, h as int);
        lemma_mod_pos_bound(c as int, h as int);
        // c / 2 == q * g + m / 2, with m / 2 < g
        lemma_fundamental_div_mod(m as int, 2);
        assert(c as int == (q * g + m / 2) * 2 + m % 2) by (nonlinear_arith)
            requires
                c == h * q + m,
                m == 2 * (m / 2) + m % 2,
                h == 2 * g,
        ;
        lemma_fundamental_div_mod_converse(c as int, 2, (q * g + m / 2) as int, (m % 2) as int);
        assert(m / 2 < g);
        lemma_fundamental_div_mod_converse((c / 2) as int, g as int, q as int, (m / 2) as int);
        assert(q * g + m / 2 == g * q + m / 2) by (nonlinear_arith);
        assert(c % 2 == m % 2);
        assert(bit_rev(m, (b - 1) as nat) == (m % 2) * g + bit_rev(m / 2, (b - 2) as nat));
        assert(bit_rev(c, b) == (c % 2) * h + bit_rev(c / 2, (b - 1) as nat));
        assert((c % 2) * h == 2 * ((m % 2) * g)) by (nonlinear_arith)
            requires
                c % 2 == m % 2,
                h == 2 * g,
        ;
    }
}

/// Reversing twice gives the index back.
pub proof fn lemma_bit_rev_involution(c: nat, b: nat)
    requires
        c < exp2(b),
    ensures
        bit_rev(bit_rev(c, b), b) == c,
    decreases b,
{
    if b > 0 {
        let h = exp2((b - 1) as nat);
        lemma_exp2_pos((b - 1) as nat);
        let rr = bit_rev(c / 2, (b - 1) as nat);
        lemma_bit_rev_bound(c / 2, (b - 1) as nat);
        let r = bit_rev(c, b);
        assert(r == (c % 2) * h + rr);
        lemma_bit_rev_bound(c, b);
        lemma_bit_rev_top(r, b);
        lemma_fundamental_div_mod_converse(r as int, h as int, (c % 2) as int, rr as int);
        lemma_bit_rev_involution(c / 2, (b - 1) as nat);
    }
}

/// Bit reversal applied twice leaves the buffer as it was.
pub proof fn lemma_bit_reversed_twice<T>(s: Seq<T>, n: int, b: nat)
    requires
        n == exp2(b),
        2 * n <= s.len(),
    ensures
        bit_reversed(bit_reversed(s, n, b), n, b) == s,
{
    let once = bit_reversed(s, n, b);
    let twice = bit_reversed(once, n, b);
    assert forall|e: int| 0 <= e < s.len() implies #[trigger] twice[e] == s[e] by {
        if 0 <= e < 2 * n {
            let p = (e / 2) as nat;
            lemma_bit_rev_bound(p, b);
            lemma_bit_rev_involution(p, b);
            let r = bit_rev(p, b);
            let e2 = 2 * r + e % 2;
            assert(e2 / 2 == r);
            assert(e2 % 2 == e % 2);
        }
    }
    assert(twice =~= s);
}

/// The buffer once the reversal pairs whose smaller index is below `k` are swapped.
pub open spec fn bit_reversed_upto<T>(s: Seq<T>, n: int, b: nat, k: int) -> Seq<T> {
    Seq::new(
        s.len(),
        |e: int|
            {
                let p = (e / 2) as nat;
                let r = bit_rev(p, b);
                if 0 <= e < 2 * n && (p < k || r < k) {
                    s[2 * r + e % 2]
                } else {
                    s[e]
                }
            },
    )
}

/// Reverses the lowest `bits` bits of `c`.
pub fn bit_rev_index(c: usize, bits: usize) -> (r: usize)
    requires
        c < exp2(bits as nat),
        bits <= 16,
    ensures
        r == bit_rev(c as nat, bits as nat),
{
    let mut r: usize = 0;
    let mut x: usize = c;
    let mut i: usize = 0;
    while i < bits
        invariant
            0 <= i <= bits,
            bits <= 16,
            bit_rev(c as nat, bits as nat) == r * exp2((bits - i) as nat) + bit_rev(
                x as nat,
                (bits - i) as nat,
            ),
            r < exp2(i as nat),
            exp2(i as nat) <= 0x10000,
        decreases bits - i,
    {
        let ghost k = (bits - i) as nat;
        proof {
            let e = exp2((k - 1) as nat);
            assert(exp2(k) == 2 * e);
            assert(r * exp2(k) + bit_rev(x as nat, k) == (2 * r + x % 2) * e + bit_rev(
                (x / 2) as nat,
                (k - 1) as nat,
            )) by (nonlinear_arith)
                requires
                    exp2(k) == 2 * e,
                    bit_rev(x as nat, k) == (x % 2) * e + bit_rev((x / 2) as nat, (k - 1) as nat),
            ;
            assert(exp2((i + 1) as nat) == 2 * exp2(i as nat));
            if i + 1 <= 16 {
                lemma_exp2_mono((i + 1) as nat, 16);
            }
        }
        r = 2 * r + x % 2;
        x = x / 2;
        i = i + 1;
    }
    proof {
        assert(i == bits);
        assert(exp2(0) == 1);
        assert(bit_rev(x as nat, 0) == 0);
        assert(r * exp2(0) == r);
    }
    r
}

proof fn lemma_exp2_16()
    ensures
        exp2(16) == 0x10000,
{
    reveal_with_fuel(exp2, 17);
}

proof fn lemma_exp2_mono(a: nat, b: nat)
    requires
        a <= b,
    ensures
        exp2(a) <= exp2(b),
        b == 16 ==> exp2(b) == 0x10000,
    decreases b,
{
    if a < b {
        lemma_exp2_mono(a, (b - 1) as nat);
        lemma_exp2_pos((b - 1) as nat);
    }
    if b == 16 {
        lemma_exp2_16();
    }
}

/// Reorders the first `n == 2^bits` complex samples of `data` into bit-reversed order.
pub fn bit_reverse_in_place<T: Copy>(data: &mut [T], n: usize, bits: usize)
    requires
        n == exp2(bits as nat),
        bits <= 16,
        2 * n <= old(data).len(),
    ensures
        final(data)@ == bit_reversed(old(data)@, n as int, bits as nat),
{
    let ghost s = data@;
    proof {
        assert(bit_reversed_upto(s, n as int, bits as nat, 0) =~= s);
    }
    let mut c: usize = 0;
    while c < n
        invariant
            n == exp2(bits as nat),
            bits <= 16,
            2 * n <= s.len(),
            2 * n <= usize::MAX,
            s.len() == data@.len(),
            0 <= c <= n,
            data@ == bit_reversed_upto(s, n as int, bits as nat, c as int),
        decreases n - c,
    {
        let r = bit_rev_index(c, bits);
        proof {
            lemma_bit_rev_bound(c as nat, bits as nat);
            lemma_bit_rev_involution(c as nat, bits as nat);
        }
        let ghost before = data@;
        if c < r {
            let a = 2 * c;
            let b = 2 * r;
            let ta = data[a];
            data[a] = data[b];
            data[b] = ta;
            let tb = data[a + 1];
            data[a + 1] = data[b + 1];
            data[b + 1] = tb;
        }
        proof {
            let next = bit_reversed_upto(s, n as int, bits as nat, c + 1);
            assert forall|e: int| 0 <= e < data@.len() implies #[trigger] data@[e] == next[e] by {
                let p = (e / 2) as nat;
                if 0 <= e < 2 * n {
                    lemma_bit_rev_bound(p, bits as nat);
                    lemma_bit_rev_involution(p, bits as nat);
                }
                if 0 <= e < 2 * n && (p == c || p == r) {
                    let e2 = 2 * bit_rev(p, bits as nat) + e % 2;
                    assert(e2 / 2 == bit_rev(p, bits as nat));
                    assert(e2 % 2 == e % 2);
                }
            }
            assert(data@ =~= next);
        }
        c = c + 1;
    }
    proof {
        let full = bit_reversed(s, n as int, bits as nat);
        assert forall|e: int| 0 <= e < data@.len() implies #[trigger] data@[e] == full[e] by {
            if 0 <= e < 2 * n {
                lemma_bit_rev_bound((e / 2) as nat, bits as nat);
            }
        }
        assert(data@ =~= full);
    }
}

/// `log2(n)` of a power of two `n`, computed.
pub fn log2_exec(n: usize) -> (b: usize)
    requires
        is_pow2(n as int),
        n <= 0x10000,
    ensures
        b == log2(n as int),
        exp2(b as nat) == n,
        b <= 16,
{
    proof {
        lemma_exp2_16();
        lemma_log2_small(n as int, 16);
        lemma_log2_exp2(n as int);
    }
    let mut m = n;
    let mut b: usize = 0;
    while m > 1
        invariant
            is_pow2(m as int),
            m <= 0x10000,
            log2(n as int) == b + log2(m as int),
            exp2(log2(n as int)) == n,
            b + log2(m as int) <= 16,
        decreases m,
    {
        proof {
            lemma_pow2_step(m as int);
        }
        m = m / 2;
        b = b + 1;
    }
    proof {
        lemma_log2_exp2(n as int);
    }
    b
}

proof fn lemma_log2_small(m: int, k: nat)
    requires
        m <= exp2(k),
    ensures
        log2(m) <= k,
    decreases m,
{
    if m > 1 {
        if k == 0 {
            assert(false);
        } else {
            assert(m / 2 <= exp2((k - 1) as nat));
            lemma_log2_small(m / 2, (k - 1) as nat);
        }
    }
}

/// The transform sizes the library supports: powers of two from 16 to 4096.
pub open spec fn fft_len_ok(n: int) -> bool {
    is_pow2(n) && 16 <= n <= 4096
}

/// Reorders a Q15 interleaved complex buffer of `fft_len` samples into
/// bit-reversed order, in place.
pub fn bitreversal_i16(data: &mut [i16], fft_len: usize)
    requires
        old(data).len() == 2 * fft_len,
        fft_len_ok(fft_len as int),
    ensures
        final(data)@ == bit_reversed(old(data)@, fft_len as int, log2(fft_len as int)),
{
    let bits = log2_exec(fft_len);
    bit_reverse_in_place(data, fft_len, bits);
}

/// Reorders a Q31 interleaved complex buffer of `fft_len` samples into
/// bit-reversed order, in place.
pub fn bitreversal_i32(data: &mut [i32], fft_len: usize)
    requires
        old(data).len() == 2 * fft_len,
        fft_len_ok(fft_len as int),
    ensures
        final(data)@ == bit_reversed(old(data)@, fft_len as int, log2(fft_len as int)),
{
    let bits = log2_exec(fft_len);
    bit_reverse_in_place(data, fft_len, bits);
}

} // verus!
