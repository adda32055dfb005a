//! Exact evaluation of Bezier segments.
//!
//! A segment of degree `k` evaluated at `t = i/n` is the Bernstein sum
//! `sum_v C(k,v) t^v (1-t)^(k-v) P_v`. Multiplying through by `n^k` gives an
//! integer numerator `sum_v C(k,v) i^v (n-i)^(k-v) P_v` over the common
//! denominator `n^k`, so every sample is computed without rounding.
use vstd::prelude::*;

verus! {

/// `n!`
pub open spec fn fact(n: nat) -> nat
    decreases n,
{
    if n == 0 {
        1
    } else {
        n * fact((n - 1) as nat)
    }
}

/// `b^e`
pub open spec fn ipow(b: int, e: nat) -> int
    decreases e,
{
    if e == 0 {
        1
    } else {
        b * ipow(b, (e - 1) as nat)
    }
}

/// Binomial coefficient through factorials.
pub open spec fn binom(k: nat, v: nat) -> int {
    fact(k) as int / (fact(v) * fact((k - v) as nat)) as int
}

/// Bernstein weight of control point `v` of a degree-`k` segment at `t = i/n`,
/// scaled by `n^k`.
pub open spec fn weight(k: nat, v: nat, i: int, n: int) -> int {
    binom(k, v) * ipow(i, v) * ipow(n - i, (k - v) as nat)
}

/// Sum of the first `upto` weighted control coordinates (`c` = 0 for x, 1 for y).
pub open spec fn partial_sum(pts: Seq<[i32; 2]>, c: int, i: int, n: int, upto: nat) -> int
    decreases upto,
{
    if upto == 0 {
        0
    } else {
        partial_sum(pts, c, i, n, (upto - 1) as nat) + weight(
            (pts.len() - 1) as nat,
            (upto - 1) as nat,
            i,
            n,
        ) * pts[upto - 1][c] as int
    }
}

/// Numerator of coordinate `c` of the segment `pts` at `t = i/n`; the
/// denominator is `n^degree`.
pub open spec fn sample_num(pts: Seq<[i32; 2]>, c: int, i: int, n: int) -> int {
    partial_sum(pts, c, i, n, pts.len())
}

/// Number of times a contour is sampled per segment when it is flattened.
pub const STEPS: usize = 10;

pub proof fn lemma_fact_pos(n: nat)
    ensures
        fact(n) >= 1,
    decreases n,
{
    if n > 0 {
        lemma_fact_pos((n - 1) as nat);
        assert(n * fact((n - 1) as nat) >= 1) by (nonlinear_arith)
            requires
                n >= 1,
                fact((n - 1) as nat) >= 1,
        ;
    }
}

pub proof fn lemma_fact_mono(a: nat, b: nat)
    requires
        a <= b,
    ensures
        fact(a) <= fact(b),
    decreases b,
{
    if a < b {
        lemma_fact_mono(a, (b - 1) as nat);
        lemma_fact_pos((b - 1) as nat);
        assert(fact((b - 1) as nat) <= b * fact((b - 1) as nat)) by (nonlinear_arith)
            requires
                b >= 1,
                fact((b - 1) as nat) >= 1,
        ;
    }
}

pub proof fn lemma_ipow_nonneg_mono(a: int, b: int, e: nat)
    requires
        0 <= a <= b,
    ensures
        0 <= ipow(a, e) <= ipow(b, e),
    decreases e,
{
    if e > 0 {
        lemma_ipow_nonneg_mono(a, b, (e - 1) as nat);
        let pa = ipow(a, (e - 1) as nat);
        let pb = ipow(b, (e - 1) as nat);
        assert(0 <= a * pa <= b * pb) by (nonlinear_arith)
            requires
                0 <= a <= b,
                0 <= pa <= pb,
        ;
    }
}

pub proof fn lemma_ipow_adds(b: int, e1: nat, e2: nat)
    ensures
        ipow(b, e1) * ipow(b, e2) == ipow(b, e1 + e2),
    decreases e1,
{
    if e1 > 0 {
        lemma_ipow_adds(b, (e1 - 1) as nat, e2);
        let p = ipow(b, (e1 - 1) as nat);
        let q = ipow(b, e2);
        assert(b * p * q == b * (p * q)) by (nonlinear_arith);
    }
}

pub proof fn lemma_zero_pow(e: nat)
    requires
        e > 0,
    ensures
        ipow(0, e) == 0,
{
}

/// For `0 <= i <= n`, the scaled Bernstein product `i^v (n-i)^(k-v)` lies in `[0, n^k]`.
pub proof fn lemma_product_bound(k: nat, v: nat, i: int, n: int)
    requires
        v <= k,
        0 <= i <= n,
    ensures
        0 <= ipow(i, v) * ipow(n - i, (k - v) as nat) <= ipow(n, k),
{
    lemma_ipow_nonneg_mono(i, n, v);
    lemma_ipow_nonneg_mono(n - i, n, (k - v) as nat);
    lemma_ipow_adds(n, v, (k - v) as nat);
    let a = ipow(i, v);
    let b = ipow(n - i, (k - v) as nat);
    let na = ipow(n, v);
    let nb = ipow(n, (k - v) as nat);
    assert(0 <= a * b <= na * nb) by (nonlinear_arith)
        requires
            0 <= a <= na,
            0 <= b <= nb,
    ;
}

/// For degrees up to 3 every binomial coefficient is between 1 and 3.
pub proof fn lemma_binom_small(k: nat, v: nat)
    requires
        k <= 3,
        v <= k,
    ensures
        1 <= binom(k, v) <= 3,
        binom(k, 0) == 1,
        binom(k, k) == 1,
{
    reveal_with_fuel(fact, 4);
    let f0 = fact(0);
    let f1 = fact(1);
    let f2 = fact(2);
    let f3 = fact(3);
    assert(f0 == 1 && f1 == 1 && f2 == 2 && f3 == 6);
    assert(fact(k) as int == if k == 0 { f0 } else if k == 1 { f1 } else if k == 2 { f2 } else { f3 });
    let d = (k - v) as nat;
    assert(fact(v) as int == if v == 0 { f0 } else if v == 1 { f1 } else if v == 2 { f2 } else { f3 });
    assert(fact(d) as int == if d == 0 { f0 } else if d == 1 { f1 } else if d == 2 { f2 } else { f3 });
    assert(fact(k) as int / (fact(v) * fact(d)) as int == binom(k, v));
    assert(fact(k) as int / (fact(0) * fact(k)) as int == binom(k, 0));
    assert(fact(k) as int / (fact(k) * fact(0)) as int == binom(k, k));
    if k == 2 && v == 1 {
        assert(2int / (1int * 1int) == 2);
    } else if k == 3 && (v == 1 || v == 2) {
        assert(6int / (1int * 2int) == 3);
        assert(6int / (2int * 1int) == 3);
    }
    let fk = fact(k) as int;
    assert(fk / (1 * fk) == 1 && fk / (fk * 1) == 1) by (nonlinear_arith)
        requires
            fk >= 1,
    ;
}

/// `n!`, computed iteratively.
pub fn factorial(n: usize) -> (r: usize)
    requires
        fact(n as nat) <= usize::MAX,
    ensures
        r == fact(n as nat),
{
    let mut r: usize = 1;
    let mut i: usize = 0;
    while i < n
        invariant
            i <= n,
            r == fact(i as nat),
            fact(n as nat) <= usize::MAX,
        decreases n - i,
    {
        i = i + 1;
        proof {
            lemma_fact_mono(i as nat, n as nat);
            assert(r * i == fact(i as nat)) by (nonlinear_arith)
                requires
                    r == fact((i - 1) as nat),
                    fact(i as nat) == i * fact((i - 1) as nat),
            ;
        }
        r = r * i;
    }
    r
}

/// `b^e` for a result that fits in `u64`.
fn pow_u64(b: u64, e: usize) -> (r: u64)
    requires
        ipow(b as int, e as nat) <= u64::MAX,
    ensures
        r == ipow(b as int, e as nat),
{
    let mut r: u64 = 1;
    let mut j: usize = 0;
    while j < e
        invariant
            j <= e,
            r == ipow(b as int, j as nat),
            ipow(b as int, e as nat) <= u64::MAX,
        decreases e - j,
    {
        proof {
            lemma_ipow_nonneg_mono(0, b as int, 0);
            lemma_ipow_adds(b as int, (j + 1) as nat, (e - j - 1) as nat);
            lemma_ipow_nonneg_mono(0, b as int, (e - j - 1) as nat);
            lemma_ipow_nonneg_mono(0, b as int, (j + 1) as nat);
            let p = ipow(b as int, (j + 1) as nat);
            let q = ipow(b as int, (e - j - 1) as nat);
            if b > 0 {
                lemma_ipow_nonneg_mono(1, b as int, (e - j - 1) as nat);
                lemma_one_pow((e - j - 1) as nat);
                assert(p <= p * q) by (nonlinear_arith)
                    requires
                        p >= 0,
                        q >= 1,
                ;
            }
            assert(p == b * r);
            assert(r * b == p) by (nonlinear_arith)
                requires
                    p == b * r,
            ;
        }
        r = r * b;
        j = j + 1;
    }
    r
}

pub proof fn lemma_one_pow(e: nat)
    ensures
        ipow(1, e) == 1,
    decreases e,
{
    if e > 0 {
        lemma_one_pow((e - 1) as nat);
    }
}

proof fn lemma_sum_at_start(pts: Seq<[i32; 2]>, c: int, n: int, upto: nat)
    requires
        2 <= pts.len() <= 4,
        1 <= upto <= pts.len(),
        n >= 1,
        0 <= c < 2,
    ensures
        partial_sum(pts, c, 0, n, upto) == ipow(n, (pts.len() - 1) as nat) * pts[0][c],
    decreases upto,
{
    let k = (pts.len() - 1) as nat;
    lemma_binom_small(k, 0);
    reveal_with_fuel(partial_sum, 2);
    if upto == 1 {
        let p = ipow(0, 0);
        let q = ipow(n - 0, (k - 0) as nat);
        assert(p == 1);
        assert(q == ipow(n, k));
        assert(1 * p * q == q) by (nonlinear_arith)
            requires
                p == 1,
        ;
        assert(weight(k, 0, 0, n) == ipow(n, k));
    } else {
        lemma_sum_at_start(pts, c, n, (upto - 1) as nat);
        lemma_zero_pow((upto - 1) as nat);
        let b = binom(k, (upto - 1) as nat);
        let q = ipow(n, (k - (upto - 1)) as nat);
        assert(b * 0 * q == 0) by (nonlinear_arith);
        assert(weight(k, (upto - 1) as nat, 0, n) == 0);
    }
}

proof fn lemma_sum_at_end(pts: Seq<[i32; 2]>, c: int, n: int, upto: nat)
    requires
        2 <= pts.len() <= 4,
        upto <= pts.len(),
        n >= 1,
        0 <= c < 2,
    ensures
        upto < pts.len() ==> partial_sum(pts, c, n, n, upto) == 0,
        upto == pts.len() ==> partial_sum(pts, c, n, n, upto) == ipow(n, (pts.len() - 1) as nat)
            * pts[pts.len() - 1][c],
    decreases upto,
{
    let k = (pts.len() - 1) as nat;
    if upto > 0 {
        lemma_sum_at_end(pts, c, n, (upto - 1) as nat);
        let v = (upto - 1) as nat;
        lemma_binom_small(k, v);
        let b = binom(k, v);
        let p = ipow(n, v);
        let z = ipow(n - n, (k - v) as nat);
        if upto < pts.len() {
            lemma_zero_pow((k - v) as nat);
            assert(z == 0);
            assert(b * p * z == 0) by (nonlinear_arith)
                requires
                    z == 0,
            ;
            assert(weight(k, v, n, n) == 0);
        } else {
            assert(z == 1);
            assert(b * p * z == p) by (nonlinear_arith)
                requires
                    z == 1,
                    b == 1,
            ;
            assert(weight(k, v, n, n) == ipow(n, k));
        }
    }
}

/// Sampling is exact at both ends: at `t = 0` the sample is the first control
/// point and at `t = 1` the last one (numerator = point times denominator `n^k`).
pub proof fn lemma_subdivide_endpoints(pts: Seq<[i32; 2]>, n: int, c: int)
    requires
        2 <= pts.len() <= 4,
        n >= 1,
        0 <= c < 2,
    ensures
        sample_num(pts, c, 0, n) == ipow(n, (pts.len() - 1) as nat) * pts[0][c],
        sample_num(pts, c, n, n) == ipow(n, (pts.len() - 1) as nat) * pts[pts.len() - 1][c],
{
    lemma_sum_at_start(pts, c, n, pts.len());
    lemma_sum_at_end(pts, c, n, pts.len());
}

/// A straight segment is sampled at evenly spaced points on the line through
/// its two control points: sample `i` of `n` is `P0 + (i/n)(P1 - P0)`, so
/// consecutive samples differ by the same step `(P1 - P0)/n`.
pub proof fn lemma_line_samples_even(pts: Seq<[i32; 2]>, n: int, i: int, c: int)
    requires
        pts.len() == 2,
        n >= 1,
        0 <= i < n,
        0 <= c < 2,
    ensures
        sample_num(pts, c, i, n) == n * pts[0][c] + i * (pts[1][c] - pts[0][c]),
        sample_num(pts, c, i + 1, n) - sample_num(pts, c, i, n) == pts[1][c] - pts[0][c],
{
    lemma_binom_small(1, 0);
    lemma_binom_small(1, 1);
    reveal_with_fuel(ipow, 2);
    reveal_with_fuel(partial_sum, 3);
    assert(ipow(i, 0) == 1 && ipow(i + 1, 0) == 1);
    assert(ipow(n - i, 0) == 1 && ipow(n - i - 1, 0) == 1);
    assert(weight(1, 0, i, n) == n - i);
    assert(binom(1, 1) == 1);
    assert(ipow(i, 1) == i * ipow(i, 0));
    assert(ipow(i + 1, 1) == (i + 1) * ipow(i + 1, 0));
    assert(weight(1, 1, i, n) == i);
    assert(weight(1, 0, i + 1, n) == n - i - 1);
    assert(weight(1, 1, i + 1, n) == i + 1);
    assert(ipow(n - i, 1) == n - i && ipow(i, 1) == i);
    assert(ipow(n - i - 1, 1) == n - i - 1 && ipow(i + 1, 1) == i + 1);
    let p0 = pts[0][c] as int;
    let p1 = pts[1][c] as int;
    assert((n - i) * p0 + i * p1 == n * p0 + i * (p1 - p0)) by (nonlinear_arith);
    assert((n - (i + 1)) * p0 + (i + 1) * p1 == n * p0 + (i + 1) * (p1 - p0)) by (nonlinear_arith);
    assert(n * p0 + (i + 1) * (p1 - p0) - (n * p0 + i * (p1 - p0)) == p1 - p0) by (nonlinear_arith);
}

/// Exact samples of a segment: numerators of `n + 1` points over one denominator.
pub struct Samples {
    /// Common denominator, `n^degree`.
    pub den: u64,
    /// Numerators of the sampled points, in parameter order.
    pub points: Vec<[i128; 2]>,
}

/// A Bezier segment of degree 1 to 3, given by its control points in
/// font design units.
pub struct Bezier {
    pub points: Vec<[i32; 2]>,
}

impl View for Bezier {
    type V = Seq<[i32; 2]>;

    open spec fn view(&self) -> Seq<[i32; 2]> {
        self.points@
    }
}

impl Bezier {
    /// A line, quadratic or cubic segment: two to four control points.
    pub open spec fn wf(&self) -> bool {
        2 <= self.points@.len() <= 4
    }

    /// One less than the number of control points.
    pub open spec fn degree(&self) -> nat {
        (self.points@.len() - 1) as nat
    }

    /// Builds a segment from its control points; `None` unless there are two to four.
    pub fn new(points: Vec<[i32; 2]>) -> (r: Option<Bezier>)
        ensures
            r is Some <==> 2 <= points@.len() <= 4,
            r matches Some(b) ==> b@ == points@ && b.wf(),
    {
        if 2 <= points.len() && points.len() <= 4 {
            Some(Bezier { points })
        } else {
            None
        }
    }

    /// Samples the segment at `t = i/n` for `i = 0..=n`, both ends included.
    /// Each numerator is at most `12 * den * 2^31` in size: there are at most
    /// four weights, each at most `3 * den`.
    pub fn subdivide(&self, n: usize) -> (r: Samples)
        requires
            self.wf(),
            n >= 1,
            ipow(n as int, self.degree()) <= u64::MAX,
        ensures
            r.den == ipow(n as int, self.degree()),
            r.points@.len() == n + 1,
            forall|i: int, c: int|
                0 <= i <= n && 0 <= c < 2 ==> -(12 * r.den * 0x8000_0000) <= #[trigger] r.points@[i][c]
                    <= 12 * r.den * 0x8000_0000,
            forall|i: int, c: int|
                0 <= i <= n && 0 <= c < 2 ==> #[trigger] r.points@[i][c] == sample_num(
                    self@,
                    c,
                    i,
                    n as int,
                ),
    {
        let k: usize = self.points.len() - 1;
        let den = pow_u64(n as u64, k);
        let mut out: Vec<[i128; 2]> = Vec::new();
        let first = self.point_at(0, n);
        out.push(first);
        let mut i: usize = 0;
        while i < n
            invariant
                self.wf(),
                k == self.degree(),
                1 <= n,
                i <= n,
                out@.len() == i + 1,
                den == ipow(n as int, k as nat),
                forall|j: int, c: int|
                    0 <= j <= i && 0 <= c < 2 ==> -(12 * den * 0x8000_0000) <= #[trigger] out@[j][c]
                        <= 12 * den * 0x8000_0000,
                ipow(n as int, k as nat) <= u64::MAX,
                forall|j: int, c: int|
                    0 <= j <= i && 0 <= c < 2 ==> #[trigger] out@[j][c] == sample_num(
                        self@,
                        c,
                        j,
                        n as int,
                    ),
            decreases n - i,
        {
            i = i + 1;
            let p = self.point_at(i, n);
            out.push(p);
        }
        Samples { den, points: out }
    }

    /// Numerators of the point at `t = i/n`.
    fn point_at(&self, i: usize, n: usize) -> (r: [i128; 2])
        requires
            self.wf(),
            1 <= n,
            i <= n,
            ipow(n as int, self.degree()) <= u64::MAX,
        ensures
            r[0] == sample_num(self@, 0, i as int, n as int),
            r[1] == sample_num(self@, 1, i as int, n as int),
            -(12 * ipow(n as int, self.degree()) * 0x8000_0000) <= r[0] <= 12 * ipow(
                n as int,
                self.degree(),
            ) * 0x8000_0000,
            -(12 * ipow(n as int, self.degree()) * 0x8000_0000) <= r[1] <= 12 * ipow(
                n as int,
                self.degree(),
            ) * 0x8000_0000,
    {
        let k: usize = self.points.len() - 1;
        let ghost nk = ipow(n as int, k as nat);
        let ghost bound = 3 * nk * 0x8000_0000;
        let ghost mut lim: int = 0;
        proof {
            lemma_ipow_nonneg_mono(1, n as int, k as nat);
            lemma_one_pow(k as nat);
        }
        let mut sx: i128 = 0;
        let mut sy: i128 = 0;
        let mut v: usize = 0;
        while v <= k
            invariant
                self.wf(),
                k == self.degree(),
                1 <= n,
                i <= n,
                v <= k + 1,
                nk == ipow(n as int, k as nat),
                nk <= u64::MAX,
                sx == partial_sum(self@, 0, i as int, n as int, v as nat),
                sy == partial_sum(self@, 1, i as int, n as int, v as nat),
                1 <= nk,
                bound == 3 * nk * 0x8000_0000,
                lim == v * bound,
                -lim <= sx <= lim,
                -lim <= sy <= lim,
            decreases k + 1 - v,
        {
            proof {
                lemma_binom_small(k as nat, v as nat);
                lemma_product_bound(k as nat, v as nat, i as int, n as int);
                lemma_ipow_nonneg_mono(i as int, n as int, v as nat);
                lemma_ipow_nonneg_mono((n - i) as int, n as int, (k - v) as nat);
                lemma_ipow_nonneg_mono(0, n as int, v as nat);
                lemma_ipow_nonneg_mono(0, n as int, (k - v) as nat);
                lemma_ipow_nonneg_mono(0, i as int, v as nat);
                lemma_ipow_nonneg_mono(0, (n - i) as int, (k - v) as nat);
                lemma_ipow_adds(n as int, v as nat, (k - v) as nat);
                lemma_fact_pos(v as nat);
                lemma_fact_pos((k - v) as nat);
                lemma_fact_mono(k as nat, 3);
                lemma_fact_mono(v as nat, 3);
                lemma_fact_mono((k - v) as nat, 3);
                reveal_with_fuel(fact, 4);
                let a = ipow(n as int, v as nat);
                let b = ipow(n as int, (k - v) as nat);
                lemma_ipow_nonneg_mono(1, n as int, v as nat);
                lemma_ipow_nonneg_mono(1, n as int, (k - v) as nat);
                lemma_one_pow(v as nat);
                lemma_one_pow((k - v) as nat);
                assert(a <= nk && b <= nk) by (nonlinear_arith)
                    requires
                        a >= 1,
                        b >= 1,
                        a * b == nk,
                ;
            }
            proof {
                assert(fact(v as nat) * fact((k - v) as nat) <= 36) by (nonlinear_arith)
                    requires
                        1 <= fact(v as nat) <= 6,
                        1 <= fact((k - v) as nat) <= 6,
                ;
                assert(fact(v as nat) * fact((k - v) as nat) >= 1) by (nonlinear_arith)
                    requires
                        1 <= fact(v as nat),
                        1 <= fact((k - v) as nat),
                ;
            }
            let fk = factorial(k);
            let fv = factorial(v);
            let fr = factorial(k - v);
            assert(1 <= fv * fr <= 36) by (nonlinear_arith)
                requires
                    1 <= fv <= 6,
                    1 <= fr <= 6,
            ;
            let c = fk / (fv * fr);
            let pi = pow_u64(i as u64, v);
            let pr = pow_u64((n - i) as u64, k - v);
            assert(c <= 3 && (pi as int) * (pr as int) <= nk);
            assert((c as int) * ((pi as int) * (pr as int)) <= 3 * nk) by (nonlinear_arith)
                requires
                    c <= 3,
                    0 <= (pi as int) * (pr as int) <= nk,
            ;
            let w: i128 = (c as i128) * ((pi as i128) * (pr as i128));
            let p = self.points[v];
            proof {
                let wi = w as int;
                let pp = (pi as int) * (pr as int);
                assert(wi == binom(k as nat, v as nat) * pp);
                assert(0 <= wi <= 3 * nk) by (nonlinear_arith)
                    requires
                        wi == binom(k as nat, v as nat) * pp,
                        1 <= binom(k as nat, v as nat) <= 3,
                        0 <= pp <= nk,
                ;
                let px = p[0] as int;
                let py = p[1] as int;
                assert(-3 * nk * 0x8000_0000 <= wi * px <= 3 * nk * 0x8000_0000) by (nonlinear_arith)
                    requires
                        0 <= wi <= 3 * nk,
                        -0x8000_0000 <= px < 0x8000_0000,
                ;
                assert(-3 * nk * 0x8000_0000 <= wi * py <= 3 * nk * 0x8000_0000) by (nonlinear_arith)
                    requires
                        0 <= wi <= 3 * nk,
                        -0x8000_0000 <= py < 0x8000_0000,
                ;
                assert(wi * px == weight(k as nat, v as nat, i as int, n as int) * px) by (nonlinear_arith)
                    requires
                        wi == binom(k as nat, v as nat) * pp,
                        pp == ipow(i as int, v as nat) * ipow(n - i, (k - v) as nat),
                ;
                assert(wi * py == weight(k as nat, v as nat, i as int, n as int) * py) by (nonlinear_arith)
                    requires
                        wi == binom(k as nat, v as nat) * pp,
                        pp == ipow(i as int, v as nat) * ipow(n - i, (k - v) as nat),
                ;
            }
            proof {
                assert(nk <= 0xffff_ffff_ffff_ffff);
                assert((v + 1) * bound <= 4 * bound) by (nonlinear_arith)
                    requires
                        v + 1 <= 4,
                        bound >= 0,
                ;
                lim = lim + bound;
                assert(lim == (v + 1) * bound) by (nonlinear_arith)
                    requires
                        lim == v * bound + bound,
                ;
            }
            sx = sx + w * (p[0] as i128);
            sy = sy + w * (p[1] as i128);
            v = v + 1;
        }
        proof {
            assert(lim <= 4 * bound) by (nonlinear_arith)
                requires
                    lim == v * bound,
                    v <= 4,
                    bound >= 0,
            ;
        }
        [sx, sy]
    }
}

} // verus!
