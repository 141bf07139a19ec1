//! The aggregator: reduces one server's raw sample buffer to
//! `{min, max, average}`. The average is kept exact, as the rational number
//! `whole + num / den`, so the statistics carry no rounding until they are
//! rendered.

use vstd::prelude::*;
use vstd::arithmetic::div_mod::lemma_div_is_ordered;
use vstd::arithmetic::div_mod::lemma_div_multiples_vanish;
use vstd::arithmetic::div_mod::lemma_fundamental_div_mod;
use vstd::arithmetic::div_mod::lemma_mod_bound;
use crate::DNS;

verus! {

/// Exact arithmetic mean of a sample collection, as the rational number
/// `whole + num / den` with `0 <= num < den`.
#[derive(Clone, Copy, Debug, PartialEq, Eq, Structural)]
pub struct Mean {
    pub whole: u64,
    pub num: u64,
    pub den: u64,
}

/// A well-formed mean has a positive denominator and a proper fraction.
pub open spec fn mean_wf(m: Mean) -> bool {
    1 <= m.den && m.num < m.den
}

/// The mean scaled by its denominator: `den` times the rational value.
pub open spec fn mean_scaled(m: Mean) -> int {
    m.whole * m.den + m.num
}

/// The mean of an empty sample collection: zero.
pub open spec fn zero_mean() -> Mean {
    Mean { whole: 0, num: 0, den: 1 }
}

/// Sum of a sample sequence.
pub open spec fn sum_seq(s: Seq<u64>) -> int
    decreases s.len(),
{
    if s.len() == 0 {
        0
    } else {
        sum_seq(s.drop_last()) + s.last()
    }
}

/// Any bounds that enclose every sample enclose the sum scaled by the
/// length; with the minimum and maximum as bounds this is the law
/// `min <= average <= max` stated over exact integers.
pub proof fn lemma_sum_seq_bounds(s: Seq<u64>, lo: int, hi: int)
    requires
        forall|i: int| 0 <= i < s.len() ==> lo <= #[trigger] s[i] <= hi,
    ensures
        lo * s.len() <= sum_seq(s) <= hi * s.len(),
    decreases s.len(),
{
    if s.len() == 0 {
    } else {
        let t = s.drop_last();
        assert(forall|i: int| 0 <= i < t.len() ==> lo <= #[trigger] t[i] <= hi);
        lemma_sum_seq_bounds(t, lo, hi);
        assert(lo <= s.last() <= hi);
        assert(lo * s.len() == lo * t.len() + lo) by (nonlinear_arith)
            requires
                s.len() == t.len() + 1,
        ;
        assert(hi * s.len() == hi * t.len() + hi) by (nonlinear_arith)
            requires
                s.len() == t.len() + 1,
        ;
    }
}

/// The statistics of one server's run, consumed by the table renderer.
#[derive(Clone, Debug)]
pub struct BenchmarkResult {
    pub dns: DNS,
    pub min: u64,
    pub max: u64,
    pub avg: Mean,
}

/// A valid result carries a well-formed mean.
pub open spec fn result_wf(r: BenchmarkResult) -> bool {
    mean_wf(r.avg)
}

/// Reduces the full raw-sample collection of one server, failure sentinels
/// included, to its `BenchmarkResult`: the exact minimum, maximum and
/// arithmetic mean, or all-zero statistics when there was nothing to
/// aggregate. The exact mean always lies between the minimum and the
/// maximum.
pub fn aggregate(dns: &DNS, samples: &Vec<u64>) -> (r: BenchmarkResult)
    ensures
        r.dns@ == dns@,
        result_wf(r),
        samples@.len() == 0 ==> r.min == 0 && r.max == 0 && r.avg == zero_mean(),
        samples@.len() > 0 ==> samples@.contains(r.min) && samples@.contains(r.max),
        forall|i: int| 0 <= i < samples@.len() ==> r.min <= #[trigger] samples@[i] <= r.max,
        samples@.len() > 0 ==> r.avg.den == samples@.len() && mean_scaled(r.avg) == sum_seq(
            samples@,
        ),
        samples@.len() > 0 ==> r.min * r.avg.den <= mean_scaled(r.avg) <= r.max * r.avg.den,
{
    let dns_c = dns.clone();
    let n = samples.len();
    if n == 0 {
        return BenchmarkResult { dns: dns_c, min: 0, max: 0, avg: Mean { whole: 0, num: 0, den: 1 } };
    }
    let mut mn: u64 = samples[0];
    let mut mx: u64 = samples[0];
    let mut sum: u128 = 0;
    let mut i: usize = 0;
    while i < n
        invariant
            n == samples@.len(),
            0 < n <= usize::MAX,
            i <= n,
            samples@.contains(mn),
            samples@.contains(mx),
            forall|k: int| 0 <= k < i ==> mn <= #[trigger] samples@[k] <= mx,
            sum == sum_seq(samples@.subrange(0, i as int)),
            sum <= i * (u64::MAX as int),
        decreases n - i,
    {
        let x = samples[i];
        if x < mn {
            mn = x;
        }
        if x > mx {
            mx = x;
        }
        proof {
            assert(sum + x <= (i + 1) * (u64::MAX as int)) by (nonlinear_arith)
                requires
                    sum <= i * (u64::MAX as int),
                    x <= u64::MAX,
            ;
            assert((i + 1) * (u64::MAX as int) <= (u64::MAX as int) * (u64::MAX as int))
                by (nonlinear_arith)
                requires
                    0 <= i,
                    i + 1 <= u64::MAX,
            ;
            assert((u64::MAX as int) * (u64::MAX as int) < u128::MAX as int) by (nonlinear_arith);
        }
        sum = sum + x as u128;
        proof {
            assert(samples@.subrange(0, (i + 1) as int).drop_last() =~= samples@.subrange(
                0,
                i as int,
            ));
            assert(samples@.subrange(0, (i + 1) as int).last() == samples@[i as int]);
        }
        i = i + 1;
    }
    proof {
        assert(samples@.subrange(0, n as int) =~= samples@);
    }
    let n128 = n as u128;
    proof {
        lemma_fundamental_div_mod(sum as int, n as int);
        lemma_mod_bound(sum as int, n as int);
        lemma_div_is_ordered(sum as int, n as int * (u64::MAX as int), n as int);
        lemma_div_multiples_vanish(u64::MAX as int, n as int);
        assert(n as int * (u64::MAX as int) == (u64::MAX as int) * n as int);
        assert(sum as int / n as int <= u64::MAX);
        assert(0 <= (sum as int % n as int) && (sum as int % n as int) < n as int);
    }
    let whole = (sum / n128) as u64;
    let num = (sum % n128) as u64;
    let avg = Mean { whole, num, den: n as u64 };
    proof {
        assert(whole == sum as int / n as int);
        assert(num == sum as int % n as int);
        assert(mean_scaled(avg) == (sum as int / n as int) * n + (sum as int % n as int));
        assert((sum as int / n as int) * n == n * (sum as int / n as int)) by (nonlinear_arith);
        assert(mean_scaled(avg) == sum_seq(samples@));
        lemma_sum_seq_bounds(samples@, mn as int, mx as int);
    }
    BenchmarkResult { dns: dns_c, min: mn, max: mx, avg }
}

/// Order of two means by their rational value, compared exactly by
/// cross-multiplication.
pub open spec fn spec_mean_le(a: Mean, b: Mean) -> bool {
    mean_scaled(a) * b.den <= mean_scaled(b) * a.den
}

/// `spec_mean_le` is transitive on well-formed means.
pub proof fn lemma_mean_le_trans(a: Mean, b: Mean, c: Mean)
    requires
        mean_wf(a),
        mean_wf(b),
        mean_wf(c),
        spec_mean_le(a, b),
        spec_mean_le(b, c),
    ensures
        spec_mean_le(a, c),
{
    let sa = mean_scaled(a);
    let sb = mean_scaled(b);
    let sc = mean_scaled(c);
    assert(sa * c.den <= sc * a.den) by (nonlinear_arith)
        requires
            sa * b.den <= sb * a.den,
            sb * c.den <= sc * b.den,
            1 <= a.den,
            1 <= b.den,
            1 <= c.den,
    ;
}

/// Compares two means by value: `true` when `a <= b`.
pub fn mean_le(a: &Mean, b: &Mean) -> (r: bool)
    requires
        mean_wf(*a),
        mean_wf(*b),
    ensures
        r == spec_mean_le(*a, *b),
{
    if a.whole != b.whole {
        proof {
            if a.whole < b.whole {
                assert(spec_mean_le(*a, *b)) by (nonlinear_arith)
                    requires
                        a.whole < b.whole,
                        a.num < a.den,
                        0 <= b.num,
                        1 <= a.den,
                        1 <= b.den,
                        spec_mean_le(*a, *b) == ((a.whole * a.den + a.num) * b.den <= (b.whole
                            * b.den + b.num) * a.den),
                ;
            } else {
                assert(!spec_mean_le(*a, *b)) by (nonlinear_arith)
                    requires
                        b.whole < a.whole,
                        b.num < b.den,
                        0 <= a.num,
                        1 <= a.den,
                        1 <= b.den,
                        spec_mean_le(*a, *b) == ((a.whole * a.den + a.num) * b.den <= (b.whole
                            * b.den + b.num) * a.den),
                ;
            }
        }
        a.whole < b.whole
    } else {
        proof {
            assert((a.num as int) * (b.den as int) < u128::MAX as int) by (nonlinear_arith)
                requires
                    a.num <= u64::MAX,
                    b.den <= u64::MAX,
            ;
            assert((b.num as int) * (a.den as int) < u128::MAX as int) by (nonlinear_arith)
                requires
                    b.num <= u64::MAX,
                    a.den <= u64::MAX,
            ;
            assert(spec_mean_le(*a, *b) == ((a.num as int) * (b.den as int) <= (b.num as int) * (
            a.den as int))) by (nonlinear_arith)
                requires
                    a.whole == b.whole,
                    spec_mean_le(*a, *b) == ((a.whole * a.den + a.num) * b.den <= (b.whole * b.den
                        + b.num) * a.den),
            ;
        }
        let lhs = (a.num as u128) * (b.den as u128);
        let rhs = (b.num as u128) * (a.den as u128);
        lhs <= rhs
    }
}

} // verus!
