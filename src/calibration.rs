use vstd::prelude::*;
use crate::comparators::{compare_dom_with_diff, measured_diff, MAX_MEASURED_DIFF};

verus! {

/// Number of live samples taken to calibrate a dynamic page.
pub const DYNAMIC_CHECK_COUNT: u32 = 10;

/// Time between two calibration samples, in milliseconds.
pub const ANALYSE_TIME_INTERVAL_MS: u64 = 1000;

/// Sum of the measured change from sample `i` to each of the first `j`
/// samples, `i` itself left out.
pub open spec fn row_total(samples: Seq<Seq<char>>, i: int, j: int) -> int
    decreases j,
{
    if j <= 0 {
        0
    } else {
        row_total(samples, i, j - 1) + if j - 1 == i {
            0
        } else {
            measured_diff(samples[i], samples[j - 1])
        }
    }
}

/// Sum of the measured change over the ordered pairs `(i, j)`, `i != j`,
/// with `i` among the first `n` samples.
pub open spec fn pair_total(samples: Seq<Seq<char>>, n: int) -> int
    decreases n,
{
    if n <= 0 {
        0
    } else {
        pair_total(samples, n - 1) + row_total(samples, n - 1, samples.len() as int)
    }
}

/// The tolerance that calibration derives from its samples: 1.3 times the
/// mean measured change over all ordered pairs of distinct samples, in
/// thousandths of a percent, rounded up. With fewer than two samples there
/// is no pair and no tolerance.
pub open spec fn calibrated_tolerance(samples: Seq<Seq<char>>) -> Option<u64> {
    tolerance_of_total(pair_total(samples, samples.len() as int), samples.len() as int)
}

/// 1.3 times the mean of a total over the `n * (n - 1)` ordered pairs of `n`
/// samples, rounded up so that the margin is kept; none without a pair.
pub open spec fn tolerance_of_total(total: int, n: int) -> Option<u64> {
    if n < 2 {
        None
    } else {
        Some(((total * 13 + 10 * n * (n - 1) - 1) / (10 * n * (n - 1))) as u64)
    }
}

/// The tolerance from the total measured change over all ordered pairs of
/// `n` samples: 1.3 times the mean, in thousandths of a percent, rounded
/// down; `None` for fewer than two samples.
pub fn tolerance_from_total(total: u64, n: usize) -> (r: Option<u64>)
    requires
        n <= DYNAMIC_CHECK_COUNT,
        total <= 100 * MAX_MEASURED_DIFF,
    ensures
        r == tolerance_of_total(total as int, n as int),
{
    if n < 2 {
        return None;
    }
    assert(n * (n - 1) <= 100) by (nonlinear_arith)
        requires
            2 <= n <= 10,
    ;
    assert(n * (n - 1) >= 2) by (nonlinear_arith)
        requires
            2 <= n <= 10,
    ;
    let pairs: u64 = (n as u64) * ((n - 1) as u64);
    let denominator: u64 = 10 * pairs;
    let numerator: u64 = total * 13 + denominator - 1;
    let t = numerator / denominator;
    proof {
        let x = numerator as int;
        let d = denominator as int;
        assert(x / d <= x) by (nonlinear_arith)
            requires
                d >= 1,
                x >= 0,
        ;
    }
    assert(10 * n as int * (n as int - 1) == 10 * (pairs as int)) by (nonlinear_arith)
        requires
            pairs as int == n as int * (n as int - 1),
    ;
    Some(t)
}

/// The texts of a list of samples.
pub open spec fn sample_texts(samples: Seq<String>) -> Seq<Seq<char>> {
    samples.map_values(|s: String| s@)
}

proof fn lemma_uniform_row(samples: Seq<Seq<char>>, v: int, i: int, j: int)
    requires
        0 <= i < samples.len(),
        0 <= j <= samples.len(),
        forall|a: int, b: int|
            0 <= a < samples.len() && 0 <= b < samples.len() && a != b ==> #[trigger] measured_diff(
                samples[a],
                samples[b],
            ) == v,
    ensures
        row_total(samples, i, j) == (if i < j {
            j - 1
        } else {
            j
        }) * v,
    decreases j,
{
    if j > 0 {
        lemma_uniform_row(samples, v, i, j - 1);
        assert((j - 2) * v + v == (j - 1) * v) by (nonlinear_arith);
        assert((j - 1) * v + v == j * v) by (nonlinear_arith);
        if j - 1 != i {
            assert(measured_diff(samples[i], samples[j - 1]) == v);
        }
    }
}

proof fn lemma_uniform_pairs(samples: Seq<Seq<char>>, v: int, k: int)
    requires
        0 <= k <= samples.len(),
        forall|a: int, b: int|
            0 <= a < samples.len() && 0 <= b < samples.len() && a != b ==> #[trigger] measured_diff(
                samples[a],
                samples[b],
            ) == v,
    ensures
        pair_total(samples, k) == k * ((samples.len() - 1) * v),
    decreases k,
{
    if k > 0 {
        lemma_uniform_pairs(samples, v, k - 1);
        lemma_uniform_row(samples, v, k - 1, samples.len() as int);
        let m = (samples.len() - 1) * v;
        assert(row_total(samples, k - 1, samples.len() as int) == m);
        assert((k - 1) * m + m == k * m) by (nonlinear_arith);
        assert(pair_total(samples, k) == pair_total(samples, k - 1) + m);
    } else {
        assert(0 * ((samples.len() - 1) * v) == 0) by (nonlinear_arith);
    }
}

/// When every ordered pair of distinct samples shows the same measured
/// change `v`, calibration yields 1.3 times `v`, in thousandths of a
/// percent, rounded up.
pub proof fn lemma_uniform_calibration(samples: Seq<Seq<char>>, v: int)
    requires
        samples.len() >= 2,
        0 <= v,
        forall|a: int, b: int|
            0 <= a < samples.len() && 0 <= b < samples.len() && a != b ==> #[trigger] measured_diff(
                samples[a],
                samples[b],
            ) == v,
    ensures
        calibrated_tolerance(samples) == Some(((v * 13 + 9) / 10) as u64),
{
    let n = samples.len() as int;
    lemma_uniform_pairs(samples, v, n);
    let k = n * (n - 1);
    vstd::arithmetic::mul::lemma_mul_strictly_positive(n, n - 1);
    let total = pair_total(samples, n);
    assert(total == k * v) by (nonlinear_arith)
        requires
            total == n * ((n - 1) * v),
            k == n * (n - 1),
    ;
    let q = (v * 13 + 9) / 10;
    let r0 = (v * 13 + 9) % 10;
    vstd::arithmetic::div_mod::lemma_fundamental_div_mod(v * 13 + 9, 10);
    vstd::arithmetic::div_mod::lemma_mod_bound(v * 13 + 9, 10);
    let x = total * 13 + 10 * n * (n - 1) - 1;
    let rem = k * (r0 + 1) - 1;
    assert(x == (10 * k) * q + rem) by (nonlinear_arith)
        requires
            x == total * 13 + 10 * n * (n - 1) - 1,
            total == k * v,
            k == n * (n - 1),
            v * 13 + 9 == 10 * q + r0,
            rem == k * (r0 + 1) - 1,
    ;
    assert(0 <= rem < 10 * k) by (nonlinear_arith)
        requires
            rem == k * (r0 + 1) - 1,
            0 <= r0 < 10,
            k >= 1,
    ;
    assert(10 * n * (n - 1) == 10 * k) by (nonlinear_arith)
        requires
            k == n * (n - 1),
    ;
    vstd::arithmetic::div_mod::lemma_fundamental_div_mod_converse(x, 10 * k, q, rem);
}

/// Computes the tolerance of a dynamic page from the samples that were
/// fetched: `None` when fewer than two samples came in, so that nothing can be
/// compared and the page must stay uncalibrated.
pub fn analyse_samples(samples: &Vec<String>) -> (r: Option<u64>)
    requires
        samples@.len() <= DYNAMIC_CHECK_COUNT,
    ensures
        r == calibrated_tolerance(sample_texts(samples@)),
{
    let ghost texts = sample_texts(samples@);
    let n = samples.len();
    if n < 2 {
        return None;
    }
    let mut total: u128 = 0;
    let mut i: usize = 0;
    while i < n
        invariant
            n == samples@.len(),
            n <= DYNAMIC_CHECK_COUNT,
            texts == sample_texts(samples@),
            0 <= i <= n,
            total as int == pair_total(texts, i as int),
            total <= (i * n) as int * MAX_MEASURED_DIFF,
        decreases n - i,
    {
        let mut row: u128 = 0;
        let mut j: usize = 0;
        while j < n
            invariant
                n == samples@.len(),
                n <= DYNAMIC_CHECK_COUNT,
                texts == sample_texts(samples@),
                0 <= i < n,
                0 <= j <= n,
                row as int == row_total(texts, i as int, j as int),
                row <= j as int * MAX_MEASURED_DIFF,
            decreases n - j,
        {
            if i != j {
                let d = compare_dom_with_diff(samples[i].as_str(), samples[j].as_str());
                assert(texts[i as int] == samples@[i as int]@);
                assert(texts[j as int] == samples@[j as int]@);
                row = row + d as u128;
            }
            j = j + 1;
        }
        assert(pair_total(texts, i + 1) == pair_total(texts, i as int) + row_total(texts, i as int, n as int));
        assert((i * n) as int * MAX_MEASURED_DIFF + n as int * MAX_MEASURED_DIFF == ((i + 1) * n) as int * MAX_MEASURED_DIFF) by (nonlinear_arith);
        assert(((i + 1) * n) as int * MAX_MEASURED_DIFF <= 100 * MAX_MEASURED_DIFF) by (nonlinear_arith)
            requires
                i + 1 <= n,
                n <= 10,
        ;
        total = total + row;
        i = i + 1;
    }
    assert(texts.len() == n);
    assert(total <= 100 * MAX_MEASURED_DIFF) by (nonlinear_arith)
        requires
            total <= (n * n) as int * MAX_MEASURED_DIFF,
            n <= 10,
    ;
    tolerance_from_total(total as u64, n)
}

/// The sampling state of one calibration: how many fetches were attempted
/// and the DOMs that came back.
pub struct Calibration {
    pub attempts: u32,
    pub samples: Vec<String>,
}

impl Calibration {
    /// Well-formed: no more samples than attempts, no more attempts than planned.
    pub open spec fn wf(&self) -> bool {
        &&& self.samples@.len() <= self.attempts
        &&& self.attempts <= DYNAMIC_CHECK_COUNT
    }

    pub fn new() -> (r: Self)
        ensures
            r.wf(),
            r.attempts == 0,
            r.samples@.len() == 0,
    {
        Calibration { attempts: 0, samples: Vec::new() }
    }

    /// Whether every planned sample has been attempted.
    pub fn is_complete(&self) -> (r: bool)
        ensures
            r == (self.attempts >= DYNAMIC_CHECK_COUNT),
    {
        self.attempts >= DYNAMIC_CHECK_COUNT
    }

    /// Records the outcome of one fetch: a DOM is kept as a sample, a failure
    /// only counts as an attempt.
    pub fn record(&mut self, fetched: Result<String, String>)
        requires
            old(self).wf(),
            old(self).attempts < DYNAMIC_CHECK_COUNT,
        ensures
            final(self).wf(),
            final(self).attempts == old(self).attempts + 1,
            final(self).samples@ == match fetched {
                Ok(dom) => old(self).samples@.push(dom),
                Err(_) => old(self).samples@,
            },
    {
        self.attempts = self.attempts + 1;
        match fetched {
            Ok(dom) => {
                self.samples.push(dom);
            },
            Err(_) => {},
        }
    }

    /// The tolerance derived from the samples recorded so far.
    pub fn tolerance(&self) -> (r: Option<u64>)
        requires
            self.wf(),
        ensures
            r == calibrated_tolerance(sample_texts(self.samples@)),
    {
        analyse_samples(&self.samples)
    }
}

} // verus!
