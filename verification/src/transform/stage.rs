//! One pass ("stage") of an in-place decimation-in-frequency butterfly network
//! over an interleaved complex buffer `[re0, im0, re1, im1, ...]`.
//!
//! A stage of span `n1` and radix `r` splits the first `n` complex samples into
//! blocks of `n1` samples; inside a block, the samples `i0, i0 + n2, ...,
//! i0 + (r - 1) * n2` (with `n2 = n1 / r`) form one butterfly group.  Every group
//! is replaced by a function of its own `2 * r` values and of its position `j`
//! inside the block.  The executable stages visit the groups in the order of
//! `group_key`; the lemmas below describe the buffer after any prefix of that order.
use vstd::arithmetic::div_mod::*;
use vstd::arithmetic::mul::*;
use vstd::prelude::*;

verus! {

/// The `2 * r` interleaved values of the group whose first leg is the complex sample `i0`.
pub open spec fn gather<T>(s: Seq<T>, i0: int, n2: int, r: int) -> Seq<T> {
    Seq::new((2 * r) as nat, |k: int| s[2 * (i0 + (k / 2) * n2) + k % 2])
}

/// First leg of the group that holds complex sample `c`.
pub open spec fn group_first(c: int, n1: int, n2: int) -> int {
    (c / n1) * n1 + c % n2
}

/// Which leg of its group the complex sample `c` is.
pub open spec fn group_leg(c: int, n1: int, n2: int) -> int {
    (c % n1) / n2
}

/// Position of a group in the visiting order of a stage: position `j` inside
/// the block first, block number second.
pub open spec fn group_key(c: int, n: int, n1: int, n2: int) -> int {
    (c % n2) * (n / n1) + c / n1
}

/// New value of the buffer element `e` once its group has been processed.
pub open spec fn stage_elem<T>(
    s: Seq<T>,
    n1: int,
    r: int,
    f: spec_fn(Seq<T>, int) -> Seq<T>,
    e: int,
) -> T {
    let c = e / 2;
    let n2 = n1 / r;
    f(gather(s, group_first(c, n1, n2), n2, r), c % n2)[2 * group_leg(c, n1, n2) + e % 2]
}

/// The buffer after the groups whose key is below `k` have been processed.
pub open spec fn stage_partial<T>(
    s: Seq<T>,
    n: int,
    n1: int,
    r: int,
    f: spec_fn(Seq<T>, int) -> Seq<T>,
    k: int,
) -> Seq<T> {
    Seq::new(
        s.len(),
        |e: int|
            if 0 <= e < 2 * n && group_key(e / 2, n, n1, n1 / r) < k {
                stage_elem(s, n1, r, f, e)
            } else {
                s[e]
            },
    )
}

/// The buffer after a whole stage.
pub open spec fn stage<T>(
    s: Seq<T>,
    n: int,
    n1: int,
    r: int,
    f: spec_fn(Seq<T>, int) -> Seq<T>,
) -> Seq<T> {
    stage_partial(s, n, n1, r, f, n)
}

/// `cur` with the group starting at `i0` overwritten by the values `v`.
pub open spec fn write_group<T>(cur: Seq<T>, i0: int, n2: int, r: int, v: Seq<T>) -> Seq<T> {
    Seq::new(
        cur.len(),
        |e: int|
            {
                let c = e / 2;
                if i0 <= c && (c - i0) % n2 == 0 && (c - i0) / n2 < r {
                    v[2 * ((c - i0) / n2) + e % 2]
                } else {
                    cur[e]
                }
            },
    )
}

/// The shape a stage needs: `n1` splits into `r` legs and `n` into blocks of `n1`.
pub open spec fn stage_shape(n: int, n1: int, r: int) -> bool {
    &&& r == 2 || r == 4
    &&& n1 >= r
    &&& n1 % r == 0
    &&& n >= n1
    &&& n % n1 == 0
}

proof fn lemma_split_index(c: int, n1: int, n2: int, r: int)
    requires
        c >= 0,
        n2 > 0,
        r > 0,
        n1 == r * n2,
    ensures
        c == (c / n1) * n1 + group_leg(c, n1, n2) * n2 + c % n2,
        0 <= group_leg(c, n1, n2) < r,
        0 <= c % n2 < n2,
        c / n1 >= 0,
        (c % n1) % n2 == c % n2,
{
    assert(n1 > 0) by (nonlinear_arith)
        requires
            n1 == r * n2,
            n2 > 0,
            r > 0,
    ;
    lemma_fundamental_div_mod(c, n1);
    lemma_mod_pos_bound(c, n1);
    let m = c % n1;
    lemma_fundamental_div_mod(m, n2);
    lemma_mod_pos_bound(m, n2);
    lemma_div_pos_is_pos(c, n1);
    lemma_div_pos_is_pos(m, n2);
    assert(m / n2 < r) by {
        lemma_div_by_multiple_is_strongly_ordered(m, n1, r, n2);
        lemma_div_by_multiple(r, n2);
        lemma_mul_is_commutative(r, n2);
    }
    // c % n2 == (c % n1) % n2, because n2 divides n1
    assert(c == ((c / n1) * r + m / n2) * n2 + m % n2) by (nonlinear_arith)
        requires
            c == (c / n1) * n1 + m,
            m == n2 * (m / n2) + m % n2,
            n1 == r * n2,
    ;
    lemma_fundamental_div_mod_converse(c, n2, (c / n1) * r + m / n2, m % n2);
    assert(c == (c / n1) * n1 + (m / n2) * n2 + c % n2) by (nonlinear_arith)
        requires
            c == (c / n1) * n1 + m,
            m == n2 * (m / n2) + m % n2,
            c % n2 == m % n2,
    ;
}

proof fn lemma_join_index(c: int, n1: int, n2: int, r: int, t: int, q: int, j: int)
    requires
        n2 > 0,
        r > 0,
        n1 == r * n2,
        t >= 0,
        0 <= q < r,
        0 <= j < n2,
        c == t * n1 + q * n2 + j,
    ensures
        c / n1 == t,
        group_leg(c, n1, n2) == q,
        c % n2 == j,
        c % n1 == q * n2 + j,
{
    assert(0 <= q * n2 + j < n1) by (nonlinear_arith)
        requires
            0 <= q < r,
            0 <= j < n2,
            n1 == r * n2,
    ;
    lemma_fundamental_div_mod_converse(c, n1, t, q * n2 + j);
    lemma_fundamental_div_mod_converse(q * n2 + j, n2, q, j);
    assert(c == (t * r + q) * n2 + j) by (nonlinear_arith)
        requires
            c == t * n1 + q * n2 + j,
            n1 == r * n2,
    ;
    lemma_fundamental_div_mod_converse(c, n2, t * r + q, j);
}

proof fn lemma_key_split(key: int, b: int, j: int, t: int)
    requires
        b > 0,
        0 <= t < b,
        key == j * b + t,
    ensures
        key / b == j,
        key % b == t,
{
    lemma_fundamental_div_mod_converse(key, b, j, t);
}

pub proof fn lemma_shape_facts(n: int, n1: int, r: int)
    requires
        stage_shape(n, n1, r),
    ensures
        n1 == r * (n1 / r),
        n1 / r > 0,
        n == n1 * (n / n1),
        n / n1 > 0,
        (n1 / r) * (n / n1) <= n,
{
    let n2 = n1 / r;
    let b = n / n1;
    lemma_fundamental_div_mod(n1, r);
    lemma_fundamental_div_mod(n, n1);
    assert(n1 == r * n2) by {
        lemma_mul_is_commutative(r, n2);
    }
    assert(n2 > 0) by (nonlinear_arith)
        requires
            n1 == r * n2,
            n1 >= r,
            r > 0,
    ;
    assert(b > 0) by (nonlinear_arith)
        requires
            n == n1 * b,
            n >= n1,
            n1 > 0,
    ;
    assert(n2 * b <= n) by (nonlinear_arith)
        requires
            n1 == r * n2,
            n == n1 * b,
            r >= 2,
            n2 > 0,
            b > 0,
    ;
}

proof fn lemma_key_bounds(c: int, n: int, n1: int, r: int)
    requires
        stage_shape(n, n1, r),
        0 <= c < n,
    ensures
        0 <= group_key(c, n, n1, n1 / r) < (n1 / r) * (n / n1),
{
    lemma_shape_facts(n, n1, r);
    let n2 = n1 / r;
    let b = n / n1;
    lemma_split_index(c, n1, n2, r);
    let tc = c / n1;
    let jc = c % n2;
    assert(tc < b) by {
        lemma_mul_is_commutative(b, n1);
        lemma_div_by_multiple_is_strongly_ordered(c, n, b, n1);
        lemma_div_by_multiple(b, n1);
    }
    assert(0 <= jc * b + tc < n2 * b) by (nonlinear_arith)
        requires
            0 <= jc < n2,
            0 <= tc < b,
    ;
}

/// A complex sample below `n` belongs to the group `(j, t)` exactly when its key
/// is that of the group.
proof fn lemma_key_is_group(c: int, n: int, n1: int, r: int, j: int, t: int)
    requires
        stage_shape(n, n1, r),
        0 <= c < n,
        0 <= j < n1 / r,
        0 <= t < n / n1,
    ensures
        (group_key(c, n, n1, n1 / r) == j * (n / n1) + t) <==> (t * n1 + j <= c && (c - (t
            * n1 + j)) % (n1 / r) == 0 && (c - (t * n1 + j)) / (n1 / r) < r),
        (group_key(c, n, n1, n1 / r) == j * (n / n1) + t) ==> (group_first(c, n1, n1 / r) == t
            * n1 + j && group_leg(c, n1, n1 / r) == (c - (t * n1 + j)) / (n1 / r) && c % (n1
            / r) == j),
        0 <= group_key(c, n, n1, n1 / r) < (n1 / r) * (n / n1),
{
    let n2 = n1 / r;
    let b = n / n1;
    lemma_fundamental_div_mod(n1, r);
    lemma_fundamental_div_mod(n, n1);
    assert(n1 == r * n2) by {
        lemma_mul_is_commutative(r, n2);
    }
    assert(n2 > 0) by (nonlinear_arith)
        requires
            n1 == r * n2,
            n1 >= r,
            r > 0,
    ;
    assert(b > 0) by (nonlinear_arith)
        requires
            n == n1 * b,
            n >= n1,
            n1 > 0,
    ;
    lemma_split_index(c, n1, n2, r);
    let tc = c / n1;
    let qc = group_leg(c, n1, n2);
    let jc = c % n2;
    assert(tc < b) by {
        lemma_mul_is_commutative(b, n1);
        lemma_div_by_multiple_is_strongly_ordered(c, n, b, n1);
        lemma_div_by_multiple(b, n1);
    }
    assert(0 <= jc * b + tc < n2 * b) by (nonlinear_arith)
        requires
            0 <= jc < n2,
            0 <= tc < b,
    ;
    let i0 = t * n1 + j;
    if group_key(c, n, n1, n2) == j * b + t {
        lemma_key_split(jc * b + tc, b, jc, tc);
        lemma_key_split(j * b + t, b, j, t);
        assert(c - i0 == qc * n2);
        lemma_fundamental_div_mod_converse(c - i0, n2, qc, 0);
    }
    if i0 <= c && (c - i0) % n2 == 0 && (c - i0) / n2 < r {
        let q = (c - i0) / n2;
        lemma_fundamental_div_mod(c - i0, n2);
        lemma_div_pos_is_pos(c - i0, n2);
        assert(c == t * n1 + q * n2 + j) by {
            lemma_mul_is_commutative(q, n2);
        }
        lemma_join_index(c, n1, n2, r, t, q, j);
    }
}

/// Processing the group `(j, t)` next extends the processed prefix by one group;
/// the group's values have not been touched before.
pub proof fn lemma_stage_step<T>(
    s: Seq<T>,
    n: int,
    n1: int,
    r: int,
    f: spec_fn(Seq<T>, int) -> Seq<T>,
    j: int,
    t: int,
)
    requires
        stage_shape(n, n1, r),
        2 * n <= s.len(),
        0 <= j < n1 / r,
        0 <= t < n / n1,
    ensures
        gather(stage_partial(s, n, n1, r, f, j * (n / n1) + t), t * n1 + j, n1 / r, r)
            == gather(s, t * n1 + j, n1 / r, r),
        write_group(
            stage_partial(s, n, n1, r, f, j * (n / n1) + t),
            t * n1 + j,
            n1 / r,
            r,
            f(gather(s, t * n1 + j, n1 / r, r), j),
        ) == stage_partial(s, n, n1, r, f, j * (n / n1) + t + 1),
{
    let n2 = n1 / r;
    let k = j * (n / n1) + t;
    let i0 = t * n1 + j;
    let cur = stage_partial(s, n, n1, r, f, k);
    lemma_fundamental_div_mod(n1, r);
    lemma_fundamental_div_mod(n, n1);
    assert(n1 == r * n2) by {
        lemma_mul_is_commutative(r, n2);
    }
    assert(n2 > 0) by (nonlinear_arith)
        requires
            n1 == r * n2,
            n1 >= r,
            r > 0,
    ;
    assert(i0 + (r - 1) * n2 < n) by {
        assert(t < n / n1);
        assert((t + 1) * n1 <= n) by (nonlinear_arith)
            requires
                t < n / n1,
                n == n1 * (n / n1),
                n1 > 0,
        ;
        assert(i0 + (r - 1) * n2 < (t + 1) * n1) by (nonlinear_arith)
            requires
                i0 == t * n1 + j,
                j < n2,
                n1 == r * n2,
        ;
    }
    assert forall|k2: int| 0 <= k2 < 2 * r implies #[trigger] gather(cur, i0, n2, r)[k2] == gather(
        s,
        i0,
        n2,
        r,
    )[k2] by {
        let q = k2 / 2;
        let c = i0 + q * n2;
        let e = 2 * c + k2 % 2;
        assert(0 <= q < r);
        assert(0 <= q * n2 <= (r - 1) * n2) by (nonlinear_arith)
            requires
                0 <= q < r,
                n2 > 0,
        ;
        assert(e / 2 == c);
        lemma_fundamental_div_mod_converse(c - i0, n2, q, 0);
        lemma_key_is_group(c, n, n1, r, j, t);
    }
    assert(gather(cur, i0, n2, r) =~= gather(s, i0, n2, r));
    let v = f(gather(s, i0, n2, r), j);
    let lhs = write_group(cur, i0, n2, r, v);
    let rhs = stage_partial(s, n, n1, r, f, k + 1);
    assert forall|e: int| 0 <= e < s.len() implies #[trigger] lhs[e] == rhs[e] by {
        let c = e / 2;
        if 0 <= e < 2 * n {
            lemma_key_is_group(c, n, n1, r, j, t);
            if group_key(c, n, n1, n2) == k {
                assert(lhs[e] == v[2 * ((c - i0) / n2) + e % 2]);
                assert(rhs[e] == stage_elem(s, n1, r, f, e));
            } else {
                assert(lhs[e] == cur[e]);
            }
        } else {
            assert(c >= n);
            if i0 <= c && (c - i0) % n2 == 0 && (c - i0) / n2 < r {
                let q = (c - i0) / n2;
                lemma_fundamental_div_mod(c - i0, n2);
                assert(c - i0 == n2 * q);
                assert(n2 * q <= n2 * (r - 1)) by (nonlinear_arith)
                    requires
                        q <= r - 1,
                        n2 > 0,
                ;
                assert((r - 1) * n2 == n2 * (r - 1)) by {
                    lemma_mul_is_commutative(r - 1, n2);
                }
                assert(false);
            }
            assert(lhs[e] == cur[e]);
        }
    }
    assert(lhs =~= rhs);
}

/// Before any group is processed the buffer is unchanged.
pub proof fn lemma_stage_start<T>(
    s: Seq<T>,
    n: int,
    n1: int,
    r: int,
    f: spec_fn(Seq<T>, int) -> Seq<T>,
)
    requires
        stage_shape(n, n1, r),
    ensures
        stage_partial(s, n, n1, r, f, 0) == s,
{
    assert forall|e: int| 0 <= e < 2 * n implies #[trigger] group_key(e / 2, n, n1, n1 / r) >= 0 by {
        lemma_key_bounds(e / 2, n, n1, r);
    }
    assert(stage_partial(s, n, n1, r, f, 0) =~= s);
}

/// Once every key is below `k` the whole stage is done.
pub proof fn lemma_stage_end<T>(
    s: Seq<T>,
    n: int,
    n1: int,
    r: int,
    f: spec_fn(Seq<T>, int) -> Seq<T>,
    k: int,
)
    requires
        stage_shape(n, n1, r),
        k >= (n1 / r) * (n / n1),
    ensures
        stage_partial(s, n, n1, r, f, k) == stage(s, n, n1, r, f),
{
    assert forall|e: int| 0 <= e < 2 * n implies #[trigger] group_key(e / 2, n, n1, n1 / r) < (n1
        / r) * (n / n1) && (n1 / r) * (n / n1) <= n by {
        lemma_key_bounds(e / 2, n, n1, r);
        lemma_shape_facts(n, n1, r);
    }
    assert(stage_partial(s, n, n1, r, f, k) =~= stage(s, n, n1, r, f));
}

} // verus!

verus! {

/// Reads the eight interleaved values of a radix-4 group.
pub fn load_group4<T: Copy>(data: &[T], i0: usize, n2: usize) -> (v: [T; 8])
    requires
        2 * (i0 + 3 * n2) + 1 < data.len(),
    ensures
        v@ == gather(data@, i0 as int, n2 as int, 4),
{
    let a = 2 * i0;
    let b = 2 * (i0 + n2);
    let c = 2 * (i0 + 2 * n2);
    let d = 2 * (i0 + 3 * n2);
    let v = [data[a], data[a + 1], data[b], data[b + 1], data[c], data[c + 1], data[d], data[d + 1]];
    proof {
        let g = gather(data@, i0 as int, n2 as int, 4);
        assert forall|k: int| 0 <= k < 8 implies #[trigger] g[k] == v@[k] by {
            assert(k == 0 || k == 1 || k == 2 || k == 3 || k == 4 || k == 5 || k == 6 || k == 7);
            assert(0int * (n2 as int) == 0 && 1int * (n2 as int) == n2 && 2int * (n2 as int) == 2
                * n2 && 3int * (n2 as int) == 3 * n2);
        }
        assert(v@ =~= g);
    }
    v
}

/// Reads the four interleaved values of a radix-2 group.
pub fn load_group2<T: Copy>(data: &[T], i0: usize, n2: usize) -> (v: [T; 4])
    requires
        2 * (i0 + n2) + 1 < data.len(),
    ensures
        v@ == gather(data@, i0 as int, n2 as int, 2),
{
    let a = 2 * i0;
    let b = 2 * (i0 + n2);
    let v = [data[a], data[a + 1], data[b], data[b + 1]];
    proof {
        let g = gather(data@, i0 as int, n2 as int, 2);
        assert forall|k: int| 0 <= k < 4 implies #[trigger] g[k] == v@[k] by {
            assert(k == 0 || k == 1 || k == 2 || k == 3);
            assert(0int * (n2 as int) == 0 && 1int * (n2 as int) == n2);
        }
        assert(v@ =~= g);
    }
    v
}

proof fn lemma_leg_offset(d: int, n2: int, r: int)
    requires
        n2 > 0,
        0 <= d,
        r > 0,
    ensures
        (d % n2 == 0 && d / n2 < r) ==> d == (d / n2) * n2 && 0 <= d / n2,
        forall|q: int| 0 <= q < r && d == #[trigger] (q * n2) ==> d % n2 == 0 && d / n2 == q,
{
    lemma_fundamental_div_mod(d, n2);
    lemma_div_pos_is_pos(d, n2);
    if d % n2 == 0 && d / n2 < r {
        assert(d == (d / n2) * n2) by {
            lemma_mul_is_commutative(n2, d / n2);
        }
    }
    assert forall|q: int| 0 <= q < r && d == #[trigger] (q * n2) implies d % n2 == 0 && d / n2
        == q by {
        lemma_fundamental_div_mod_converse(d, n2, q, 0);
    }
}

/// Writes the eight interleaved values of a radix-4 group.
pub fn store_group4<T: Copy>(data: &mut [T], i0: usize, n2: usize, v: [T; 8])
    requires
        n2 > 0,
        2 * (i0 + 3 * n2) + 1 < old(data).len(),
    ensures
        final(data)@ == write_group(old(data)@, i0 as int, n2 as int, 4, v@),
{
    let a = 2 * i0;
    let b = 2 * (i0 + n2);
    let c = 2 * (i0 + 2 * n2);
    let d = 2 * (i0 + 3 * n2);
    data[a] = v[0];
    data[a + 1] = v[1];
    data[b] = v[2];
    data[b + 1] = v[3];
    data[c] = v[4];
    data[c + 1] = v[5];
    data[d] = v[6];
    data[d + 1] = v[7];
    proof {
        let w = write_group(old(data)@, i0 as int, n2 as int, 4, v@);
        assert forall|e: int| 0 <= e < data@.len() implies #[trigger] data@[e] == w[e] by {
            let cc = e / 2;
            if cc >= i0 {
                lemma_leg_offset(cc - i0, n2 as int, 4);
                if (cc - i0) % (n2 as int) == 0 && (cc - i0) / (n2 as int) < 4 {
                    let q = (cc - i0) / (n2 as int);
                    assert(q == 0 || q == 1 || q == 2 || q == 3);
                }
                assert((0 * n2) as int == 0 && (1 * n2) as int == n2 && (2 * n2) as int == 2 * n2 && (3 * n2) as int == 3 * n2);
                assert(0int * (n2 as int) == 0 && 1int * (n2 as int) == n2 && 2int * (n2 as int) == 2 * n2 && 3int * (n2 as int) == 3 * n2);
            }
        }
        assert(data@ =~= w);
    }
}

/// Writes the four interleaved values of a radix-2 group.
pub fn store_group2<T: Copy>(data: &mut [T], i0: usize, n2: usize, v: [T; 4])
    requires
        n2 > 0,
        2 * (i0 + n2) + 1 < old(data).len(),
    ensures
        final(data)@ == write_group(old(data)@, i0 as int, n2 as int, 2, v@),
{
    let a = 2 * i0;
    let b = 2 * (i0 + n2);
    data[a] = v[0];
    data[a + 1] = v[1];
    data[b] = v[2];
    data[b + 1] = v[3];
    proof {
        let w = write_group(old(data)@, i0 as int, n2 as int, 2, v@);
        assert forall|e: int| 0 <= e < data@.len() implies #[trigger] data@[e] == w[e] by {
            let cc = e / 2;
            if cc >= i0 {
                lemma_leg_offset(cc - i0, n2 as int, 2);
                if (cc - i0) % (n2 as int) == 0 && (cc - i0) / (n2 as int) < 2 {
                    let q = (cc - i0) / (n2 as int);
                    assert(q == 0 || q == 1);
                }
                assert(0int * (n2 as int) == 0 && 1int * (n2 as int) == n2);
            }
        }
        assert(data@ =~= w);
    }
}

/// Bounds of the group walk of a stage: every group started below `n` fits below `n`.
pub proof fn lemma_group_walk(n: int, n1: int, n2: int, r: int, b: int, t: int, j: int)
    requires
        r == 2 || r == 4,
        n1 == r * n2,
        n2 > 0,
        n == n1 * b,
        0 <= j < n2,
        t >= 0,
    ensures
        t * n1 + j < n ==> t < b && t * n1 + j + (r - 1) * n2 < n && (t + 1) * n1 + j <= n + j,
        (t + 1) * n1 + j == t * n1 + j + n1,
        t * n1 + j >= n ==> t >= b,
{
    assert(n1 > 0) by (nonlinear_arith)
        requires
            n1 == r * n2,
            n2 > 0,
            r >= 2,
    ;
    if t * n1 + j < n {
        assert(t < b) by (nonlinear_arith)
            requires
                t * n1 + j < n,
                n == n1 * b,
                j >= 0,
                n1 > 0,
        ;
        assert((t + 1) * n1 <= n) by (nonlinear_arith)
            requires
                t + 1 <= b,
                n == n1 * b,
                n1 > 0,
        ;
        assert((t + 1) * n1 == t * n1 + n1) by (nonlinear_arith);
        assert((r - 1) * n2 + n2 == n1) by (nonlinear_arith)
            requires
                n1 == r * n2,
        ;
    }
    assert((t + 1) * n1 == t * n1 + n1) by (nonlinear_arith);
    if t * n1 + j >= n {
        assert(j < n1) by (nonlinear_arith)
            requires
                j < n2,
                n1 == r * n2,
                r >= 2,
                n2 > 0,
        ;
        assert(t >= b) by (nonlinear_arith)
            requires
                t * n1 + j >= n,
                n == n1 * b,
                j < n1,
                n1 > 0,
        ;
    }
}

} // verus!
