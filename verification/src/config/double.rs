//! Decimal numbers at double precision: what is left of them in 53 binary digits.

use crate::text::{all_digits, digits_value, is_digit};
use vstd::arithmetic::div_mod::lemma_fundamental_div_mod_converse;
use vstd::arithmetic::power2::{
    lemma2_to64, lemma2_to64_rest, lemma_pow2_adds, lemma_pow2_pos, lemma_pow2_strictly_increases,
    lemma_pow2_unfold, pow2,
};
use vstd::prelude::*;

verus! {

/// The least number with 53 binary digits.
pub const TOP: u64 = 0x10_0000_0000_0000;

/// The whole number nearest to `n / d`; of two as near, the even one.
pub open spec fn half_even(n: nat, d: nat) -> nat {
    let q = n / d;
    let r = n % d;
    if 2 * r > d || 2 * r == d && q % 2 == 1 {
        q + 1
    } else {
        q
    }
}

/// The whole number nearest to `n / d`; of two as near, the greater one.
pub open spec fn half_up(n: nat, d: nat) -> nat {
    (2 * n + d) / (2 * d)
}

/// How often `n / d` is to be doubled until it has 53 binary digits before its point.
pub open spec fn doublings(n: nat, d: nat) -> nat
    decreases
            if n < d * TOP {
                d * TOP - n
            } else {
                0
            },
{
    if 0 < n < d * TOP {
        1 + doublings(2 * n, d)
    } else {
        0
    }
}

/// The number of 53 binary digits that is nearest to `n / d`, as a fraction; `n / d`
/// has no more than that before its point.
pub open spec fn nearest(n: nat, d: nat) -> (nat, nat) {
    let j = doublings(n, d);
    (half_even(n * pow2(j), d), pow2(j))
}

/// Ten to the `k`th.
pub open spec fn tens(k: nat) -> nat
    decreases k,
{
    if k == 0 {
        1
    } else {
        10 * tens((k - 1) as nat)
    }
}

/// `n / d` milliseconds, or seconds, as whole milliseconds. The number, and its
/// thousandfold, are taken at double precision; where a double has fewer digits than
/// 53, for its least exponent, no millisecond is left either way.
pub open spec fn millis(n: nat, d: nat, ms: bool) -> nat {
    let (a, b) = nearest(n, d);
    if ms {
        half_up(a, b)
    } else {
        let (p, q) = nearest(a * 1000, b);
        half_up(p, q)
    }
}

// ---- the figures behind a point --------------------------------------------

/// The number that figures write.
spec fn value(s: Seq<u8>) -> nat
    decreases s.len(),
{
    if s.len() == 0 {
        0
    } else {
        s[0] as nat * tens((s.len() - 1) as nat) + value(s.skip(1))
    }
}

spec fn figures(s: Seq<u8>) -> bool {
    forall|i: int| 0 <= i < s.len() ==> #[trigger] s[i] <= 9
}

proof fn lemma_value_last(s: Seq<u8>)
    requires
        s.len() > 0,
    ensures
        value(s) == value(s.drop_last()) * 10 + s.last(),
    decreases s.len(),
{
    if s.len() == 1 {
        assert(s.skip(1) =~= Seq::empty());
        assert(s.drop_last() =~= Seq::empty());
        assert(tens(0) == 1 && value(Seq::<u8>::empty()) == 0);
        assert(s[0] as nat * 1 == s[0]);
    } else {
        let t = s.skip(1);
        lemma_value_last(t);
        let most = s.drop_last();
        assert(most.skip(1) =~= t.drop_last());
        assert(most[0] == s[0] && t.last() == s.last());
        let a = s[0] as nat;
        let p = tens((s.len() - 2) as nat);
        assert(tens((s.len() - 1) as nat) == 10 * p);
        assert(a * (10 * p) == (a * p) * 10) by (nonlinear_arith);
        assert(value(most) == a * p + value(t.drop_last()));
        assert(value(s) == a * (10 * p) + value(t));
    }
}

proof fn lemma_value_less(s: Seq<u8>)
    requires
        figures(s),
    ensures
        value(s) < tens(s.len()),
    decreases s.len(),
{
    if s.len() > 0 {
        let t = s.skip(1);
        assert forall|i: int| 0 <= i < t.len() implies #[trigger] t[i] <= 9 by {
            assert(t[i] == s[i + 1]);
        }
        lemma_value_less(t);
        let a = s[0] as nat;
        let p = tens((s.len() - 1) as nat);
        assert(a <= 9);
        assert(a * p + p <= 10 * p) by (nonlinear_arith)
            requires
                a <= 9,
        ;
    }
}

proof fn lemma_value_zero(s: Seq<u8>)
    ensures
        value(s) == 0 <==> forall|i: int| 0 <= i < s.len() ==> #[trigger] s[i] == 0,
    decreases s.len(),
{
    if s.len() > 0 {
        let t = s.skip(1);
        lemma_value_zero(t);
        lemma_tens((s.len() - 1) as nat);
        let a = s[0] as nat;
        let p = tens((s.len() - 1) as nat);
        assert(a * p == 0 <==> a == 0) by (nonlinear_arith)
            requires
                p > 0,
        ;
        assert(forall|i: int| 0 <= i < t.len() ==> #[trigger] t[i] == s[i + 1]);
        assert(forall|i: int| 0 < i < s.len() ==> #[trigger] s[i] == t[i - 1]);
    }
}

proof fn lemma_tens(k: nat)
    ensures
        0 < tens(k) <= pow2(4 * k),
    decreases k,
{
    lemma2_to64();
    if k > 0 {
        lemma_tens((k - 1) as nat);
        lemma_pow2_adds(4, (4 * (k - 1)) as nat);
        assert(4 + 4 * (k - 1) == 4 * k);
    }
}

fn figures_of(f: &Vec<char>) -> (v: Vec<u8>)
    requires
        all_digits(f@),
    ensures
        v@.len() == f@.len(),
        figures(v@),
        value(v@) == digits_value(f@),
{
    let mut v: Vec<u8> = Vec::new();
    for i in 0..f.len()
        invariant
            all_digits(f@),
            v@.len() == i,
            figures(v@),
            value(v@) == digits_value(f@.take(i as int)),
    {
        assert(is_digit(f@[i as int]));
        assert(f@.take(i + 1).drop_last() =~= f@.take(i as int));
        let ghost had = v@;
        v.push((f[i] as u32 - '0' as u32) as u8);
        proof {
            lemma_value_last(v@);
            assert(v@.drop_last() =~= had);
        }
    }
    assert(f@.take(f@.len() as int) =~= f@);
    v
}

/// Twice what the figures say; what no longer fits behind the point is given back.
fn double(f: &mut Vec<u8>) -> (carry: u64)
    requires
        figures(old(f)@),
    ensures
        figures(final(f)@),
        final(f)@.len() == old(f)@.len(),
        carry <= 1,
        2 * value(old(f)@) == carry * tens(old(f)@.len()) + value(final(f)@),
{
    let ghost had = f@;
    let ghost k = f@.len();
    let mut carry: u8 = 0;
    let mut i: usize = f.len();
    assert(f@.skip(k as int) =~= Seq::empty());
    while i > 0
        invariant
            had == old(f)@,
            k == had.len() == f@.len(),
            i <= k,
            figures(f@),
            figures(had),
            carry <= 1,
            forall|j: int| 0 <= j < i ==> #[trigger] f@[j] == had[j],
            2 * value(had.skip(i as int)) == carry * tens((k - i) as nat) + value(
                f@.skip(i as int),
            ),
        decreases i,
    {
        let ghost was = f@;
        let ghost c = carry as nat;
        let at = i - 1;
        let d = f[at];
        assert(d == had[at as int] && d <= 9);
        let t: u8 = 2 * d + carry;
        f.set(at, t % 10);
        carry = t / 10;
        proof {
            let p = tens((k - i) as nat);
            assert(f@.skip(at as int).skip(1) =~= was.skip(i as int));
            assert(had.skip(at as int).skip(1) =~= had.skip(i as int));
            assert(tens((k - at) as nat) == 10 * p);
            let low = (t % 10) as nat;
            let new = carry as nat;
            assert(2 * (d as nat * p) + c * p == new * (10 * p) + low * p) by (nonlinear_arith)
                requires
                    2 * d as nat + c == 10 * new + low,
            ;
        }
        i = at;
    }
    proof {
        assert(had.skip(0) =~= had);
        assert(f@.skip(0) =~= f@);
    }
    carry as u64
}

fn nothing(f: &Vec<u8>) -> (r: bool)
    ensures
        r == (value(f@) == 0),
{
    let mut i: usize = 0;
    while i < f.len()
        invariant
            i <= f@.len(),
            forall|j: int| 0 <= j < i ==> #[trigger] f@[j] == 0,
        decreases f.len() - i,
    {
        if f[i] != 0 {
            proof {
                lemma_value_zero(f@);
            }
            return false;
        }
        i = i + 1;
    }
    proof {
        lemma_value_zero(f@);
    }
    true
}

// ---- 53 binary digits ------------------------------------------------------

proof fn lemma_scaled(n: nat, d: nat, c: nat)
    requires
        d > 0,
        c > 0,
    ensures
        half_even(n * c, d * c) == half_even(n, d),
{
    let q = n / d;
    let r = n % d;
    assert(n == q * d + r && 0 <= r < d) by {
        vstd::arithmetic::div_mod::lemma_fundamental_div_mod(n as int, d as int);
        assert(d * q == q * d) by (nonlinear_arith);
    }
    assert(n * c == q * (d * c) + r * c && 0 <= r * c < d * c) by (nonlinear_arith)
        requires
            n == q * d + r,
            0 <= r < d,
            c > 0,
    ;
    lemma_fundamental_div_mod_converse((n * c) as int, (d * c) as int, q as int, (r * c) as int);
    assert((2 * (r * c) > d * c) == (2 * r > d)) by (nonlinear_arith)
        requires
            c > 0,
    ;
    assert((2 * (r * c) == d * c) == (2 * r == d)) by (nonlinear_arith)
        requires
            c > 0,
    ;
}

proof fn lemma_doublings(n: nat, d: nat, j: nat)
    requires
        n > 0,
        n * pow2(j) >= d * TOP,
        j > 0 ==> n * pow2((j - 1) as nat) < d * TOP,
    ensures
        doublings(n, d) == j,
    decreases j,
{
    lemma2_to64();
    assert(n * pow2(0) == n);
    if j > 0 {
        let i = (j - 1) as nat;
        lemma_pow2_unfold(j);
        lemma_pow2_pos(i);
        assert((2 * n) * pow2(i) == n * (2 * pow2(i))) by (nonlinear_arith);
        assert(n <= n * pow2(i)) by (nonlinear_arith)
            requires
                pow2(i) > 0,
        ;
        if i > 0 {
            lemma_pow2_unfold(i);
            assert((2 * n) * pow2((i - 1) as nat) == n * (2 * pow2((i - 1) as nat)))
                by (nonlinear_arith);
        }
        lemma_doublings(2 * n, d, i);
    }
}

/// No more doublings than four for each figure, and 52.
proof fn lemma_few(n: nat, k: nat, j: nat)
    requires
        n > 0,
        n * pow2(j) < tens(k) * TOP,
    ensures
        j < 4 * k + 52,
{
    lemma2_to64();
    lemma2_to64_rest();
    lemma_tens(k);
    lemma_pow2_adds(4 * k, 52);
    lemma_pow2_pos(j);
    assert(pow2(j) <= n * pow2(j)) by (nonlinear_arith)
        requires
            n > 0,
    ;
    if j >= 4 * k + 52 {
        if j > 4 * k + 52 {
            lemma_pow2_strictly_increases(4 * k + 52, j);
        }
        assert(false);
    }
}

/// The number `whole` with the figures `f` behind its point, at double precision: its
/// 53 binary digits, and how many of them stand behind the point.
fn binary(whole: u64, f: Vec<u8>) -> (r: (u64, u128))
    requires
        whole < 1_000_000_000,
        figures(f@),
        whole * tens(f@.len()) + value(f@) > 0,
    ensures
        ({
            let d = tens(f@.len());
            let n = (whole * d + value(f@)) as nat;
            nearest(n, d) == (r.0 as nat, pow2(r.1 as nat))
        }),
        TOP <= r.0 <= 2 * TOP,
        r.1 >= 10,
{
    let size: usize = f.len();
    let ghost k = size as nat;
    let ghost d = tens(k);
    let ghost n = (whole * d + value(f@)) as nat;
    let ghost first = value(f@);
    let mut f = f;
    let mut m: u64 = whole;
    let mut j: u128 = 0;
    proof {
        lemma2_to64();
        lemma2_to64_rest();
        lemma_tens(k);
        lemma_value_less(f@);
        assert(n * pow2(0) == n);
    }
    while m < TOP
        invariant
            d == tens(k),
            d > 0,
            n > 0,
            f@.len() == k,
            k == size,
            figures(f@),
            m * d + value(f@) == n * pow2(j as nat),
            m < 2 * TOP,
            j <= 4 * k + 53,
            j > 0 ==> n * pow2((j - 1) as nat) < d * TOP,
        decreases
                if m < TOP {
                    d * TOP - n * pow2(j as nat)
                } else {
                    0
                },
    {
        let ghost x = n * pow2(j as nat);
        let ghost v = value(f@);
        proof {
            lemma_value_less(f@);
            assert(x < d * TOP) by (nonlinear_arith)
                requires
                    x == m * d + v,
                    v < d,
                    m + 1 <= TOP,
            ;
            lemma_few(n, k, j as nat);
        }
        let c = double(&mut f);
        let ghost was = m;
        m = 2 * m + c;
        j = j + 1;
        proof {
            lemma_pow2_unfold(j as nat);
            lemma_pow2_pos((j - 1) as nat);
            assert(n * pow2(j as nat) == 2 * x) by (nonlinear_arith)
                requires
                    x == n * pow2((j - 1) as nat),
                    pow2(j as nat) == 2 * pow2((j - 1) as nat),
            ;
            assert(m * d == 2 * (was * d) + c * d) by (nonlinear_arith)
                requires
                    m == 2 * was + c,
            ;
            assert(x > 0) by (nonlinear_arith)
                requires
                    x == n * pow2((j - 1) as nat),
                    n > 0,
                    pow2((j - 1) as nat) > 0,
            ;
            if m < TOP {
                lemma_value_less(f@);
                assert(2 * x < d * TOP) by (nonlinear_arith)
                    requires
                        2 * x == m * d + value(f@),
                        value(f@) < d,
                        m + 1 <= TOP,
                ;
            }
        }
    }
    let ghost v = value(f@);
    let ghost x = n * pow2(j as nat);
    proof {
        lemma_value_less(f@);
        assert(x >= d * TOP) by (nonlinear_arith)
            requires
                x == m * d + v,
                m >= TOP,
        ;
        lemma_doublings(n, d, j as nat);
        lemma_fundamental_div_mod_converse(x as int, d as int, m as int, v as int);
        if j < 10 {
            lemma_pow2_strictly_increases(j as nat, 10);
            assert(n < 1_000_000_000 * d) by (nonlinear_arith)
                requires
                    n == whole * d + first,
                    first < d,
                    whole + 1 <= 1_000_000_000,
            ;
            assert(x < 1_024_000_000_000 * d) by (nonlinear_arith)
                requires
                    x == n * pow2(j as nat),
                    n < 1_000_000_000 * d,
                    pow2(j as nat) <= 1024,
            ;
        }
    }
    let c = double(&mut f);
    let over = !nothing(&f);
    proof {
        lemma_value_less(f@);
        assert(x / d == m && x % d == v);
        assert(c * d == if c == 1 {
            d
        } else {
            0
        });
        assert(doublings(n, d) == j);
    }
    if c == 1 && (over || m % 2 == 1) {
        (m + 1, j)
    } else {
        (m, j)
    }
}

/// A thousand times a number of 53 binary digits, at the same precision.
fn thousandfold(m: u64, j: u128) -> (r: (u64, u128))
    requires
        TOP <= m <= 2 * TOP,
        j >= 10,
    ensures
        nearest((m * 1000) as nat, pow2(j as nat)) == (r.0 as nat, pow2(r.1 as nat)),
        r.0 <= 2 * TOP,
{
    let p: u64 = m * 1000;
    let (s, c): (u128, u64) = if p < 1024 * TOP {
        (9, 512)
    } else {
        (10, 1024)
    };
    let i: u128 = j - s;
    proof {
        let b = pow2(i as nat);
        lemma2_to64();
        lemma_pow2_adds(s as nat, i as nat);
        lemma_pow2_pos(i as nat);
        assert(pow2(j as nat) == c * b);
        assert(p * b >= (c * b) * TOP) by (nonlinear_arith)
            requires
                p >= c * TOP,
                b > 0,
        ;
        if i > 0 {
            lemma_pow2_unfold(i as nat);
            let h = pow2((i - 1) as nat);
            assert(p * h < (c * b) * TOP) by (nonlinear_arith)
                requires
                    p < 2 * (c * TOP),
                    b == 2 * h,
                    b > 0,
            ;
        }
        lemma_doublings(p as nat, pow2(j as nat), i as nat);
        lemma_scaled(p as nat, c as nat, b);
    }
    let q: u64 = p / c;
    let rest: u64 = p % c;
    if 2 * rest > c || (2 * rest == c && q % 2 == 1) {
        (q + 1, i)
    } else {
        (q, i)
    }
}

/// The whole number nearest to `m` with `j` binary digits behind its point.
fn whole_of(m: u64, j: u128) -> (r: u64)
    requires
        m <= 2 * TOP,
    ensures
        r == half_up(m as nat, pow2(j as nat)),
{
    proof {
        lemma2_to64();
        lemma2_to64_rest();
    }
    if j >= 60 {
        proof {
            let b = pow2(j as nat);
            if j > 60 {
                lemma_pow2_strictly_increases(60, j as nat);
            }
            lemma_fundamental_div_mod_converse(
                (2 * m + b) as int,
                (2 * b) as int,
                0,
                (2 * m + b) as int,
            );
        }
        return 0;
    }
    let mut b: u64 = 1;
    let mut i: u128 = 0;
    while i < j
        invariant
            i <= j < 60,
            b == pow2(i as nat),
            pow2(60) == 0x1000000000000000,
        decreases j - i,
    {
        proof {
            lemma_pow2_unfold((i + 1) as nat);
            if i + 1 < 60 {
                lemma_pow2_strictly_increases((i + 1) as nat, 60);
            }
        }
        b = 2 * b;
        i = i + 1;
    }
    proof {
        lemma_pow2_strictly_increases(j as nat, 60);
        lemma_pow2_pos(j as nat);
    }
    (2 * m + b) / (2 * b)
}

/// The number `whole` with the figures `f` behind its point, of milliseconds or
/// seconds, as whole milliseconds.
pub fn rounded(whole: u64, f: &Vec<char>, ms: bool) -> (r: u64)
    requires
        whole < 1_000_000_000,
        all_digits(f@),
    ensures
        r == millis(
            (whole * tens(f@.len()) + digits_value(f@)) as nat,
            tens(f@.len()),
            ms,
        ),
{
    let v = figures_of(f);
    proof {
        lemma_tens(f@.len());
        let d = tens(f@.len());
        assert(whole * d > 0 <==> whole > 0) by (nonlinear_arith)
            requires
                d > 0,
                whole >= 0,
        ;
    }
    if whole == 0 && nothing(&v) {
        proof {
            assert(whole * tens(f@.len()) == 0);
            lemma_nothing(tens(f@.len()));
            lemma_nothing(1);
        }
        return 0;
    }
    let (m, j) = binary(whole, v);
    if ms {
        whole_of(m, j)
    } else {
        let (p, i) = thousandfold(m, j);
        whole_of(p, i)
    }
}

proof fn lemma_nothing(d: nat)
    requires
        d > 0,
    ensures
        nearest(0, d) == (0nat, 1nat),
        half_up(0, 1) == 0,
{
    lemma2_to64();
    lemma_fundamental_div_mod_converse(1, 2, 0, 1);
    lemma_fundamental_div_mod_converse(0, d as int, 0, 0);
}

/// A whole number is itself, and so is its thousandfold.
pub proof fn lemma_whole(n: nat, ms: bool)
    requires
        n < 1_000_000_000,
    ensures
        millis(n, 1, ms) == if ms {
            n
        } else {
            n * 1000
        },
{
    lemma2_to64();
    if n == 0 {
        lemma_nothing(1);
    } else {
        let b = pow2(doublings(n, 1));
        lemma_as_it_is(n);
        if !ms {
            lemma_pow2_pos(doublings(n, 1));
            assert((n * b) * 1000 == (n * 1000) * b) by (nonlinear_arith);
            lemma_nearest_scaled(n * 1000, 1, b);
            lemma_as_it_is(n * 1000);
        }
    }
}

proof fn lemma_as_it_is(n: nat)
    requires
        n > 0,
    ensures
        nearest(n, 1) == (n * pow2(doublings(n, 1)), pow2(doublings(n, 1))),
        half_up(n * pow2(doublings(n, 1)), pow2(doublings(n, 1))) == n,
{
    let b = pow2(doublings(n, 1));
    lemma_pow2_pos(doublings(n, 1));
    assert(2 * (n * b) + b == n * (2 * b) + b) by (nonlinear_arith);
    lemma_fundamental_div_mod_converse((2 * (n * b) + b) as int, (2 * b) as int, n as int, b as int);
}

proof fn lemma_nearest_scaled(n: nat, d: nat, c: nat)
    requires
        d > 0,
        c > 0,
    ensures
        nearest(n * c, d * c) == nearest(n, d),
{
    lemma_doublings_scaled(n, d, c);
    let b = pow2(doublings(n, d));
    assert((n * c) * b == (n * b) * c) by (nonlinear_arith);
    lemma_scaled(n * b, d, c);
}

proof fn lemma_doublings_scaled(n: nat, d: nat, c: nat)
    requires
        c > 0,
    ensures
        doublings(n * c, d * c) == doublings(n, d),
    decreases
            if n < d * TOP {
                d * TOP - n
            } else {
                0
            },
{
    assert((n * c < (d * c) * TOP) == (n < d * TOP)) by (nonlinear_arith)
        requires
            c > 0,
    ;
    assert((n * c > 0) == (n > 0)) by (nonlinear_arith)
        requires
            c > 0,
    ;
    if 0 < n < d * TOP {
        lemma_doublings_scaled(2 * n, d, c);
        assert((2 * n) * c == 2 * (n * c)) by (nonlinear_arith);
    }
}

} // verus!
