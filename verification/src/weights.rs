//! The weight kernel: a pure map from per-relay telemetry to ranking scores.
//!
//! Scores are fixed-point numbers: an `i64` counts millionths, so
//! `SCORE_ONE` (1_000_000) stands for 1.0. A relay's *initial* weight is
//!
//! ```text
//! initial = response_time_weight * success_rate + trust_level + vendor_score
//! ```
//!
//! where `response_time_weight = 1.0 - log10(median response time in ms)`
//! and `success_rate = successful_requests / requests` (0 when no requests
//! were seen). Its *current* weight adds `CONNECTION_WEIGHT` for every
//! checked-out connection.
//!
//! The base-ten logarithm is computed in fixed point as the number of digits
//! minus one, plus a linear interpolation between neighbouring powers of ten:
//! `log10(m) ~ c + (m - 10^c) / (9 * 10^c)` for `10^c <= m < 10^(c+1)`. The
//! approximation is exact at powers of ten and strictly monotone.

use vstd::prelude::*;
use crate::duration::{Sample, sample_leq, sample_leq_exec, MAX_SAMPLE_MILLIS};

verus! {

/// One, in millionths: the fixed-point scale of every score.
pub const SCORE_ONE: i64 = 1_000_000;

/// The weight added to a relay's current weight for each checked-out
/// connection (0.1 in millionths).
pub const CONNECTION_WEIGHT: i64 = 100_000;

/// The weight a relay carries when first inserted, before any telemetry or
/// configuration arrives (1.0 in millionths).
pub const DEFAULT_WEIGHT: i64 = 1_000_000;

/// The fixed-point logarithm of a zero-millisecond reading: saturated at
/// -6.0, the logarithm of the smallest positive score.
pub const LOG_FLOOR: i64 = -6_000_000;

/// Ten to the power `e`.
pub open spec fn spec_pow10(e: nat) -> nat
    decreases e,
{
    if e == 0 {
        1
    } else {
        10 * spec_pow10((e - 1) as nat)
    }
}

/// The number of decimal digits of `m`, minus one.
pub open spec fn spec_log10_floor(m: nat) -> nat
    decreases m,
{
    if m < 10 {
        0
    } else {
        1 + spec_log10_floor(m / 10)
    }
}

/// The fixed-point base-ten logarithm of a value counted in millionths of a
/// millisecond. Zero saturates to `LOG_FLOOR`.
pub open spec fn spec_log10_micros(m: int) -> int {
    if m <= 0 {
        LOG_FLOOR as int
    } else {
        let c = spec_log10_floor(m as nat) as int;
        let p = spec_pow10(spec_log10_floor(m as nat)) as int;
        (c - 6) * 1_000_000 + (m - p) * 1_000_000 / (9 * p)
    }
}

/// `spec_log10_floor` is the unique `c` with `10^c <= m < 10^(c+1)`.
proof fn lemma_log10_floor_unique(m: nat, c: nat)
    requires
        spec_pow10(c) <= m,
        m < spec_pow10(c + 1),
    ensures
        spec_log10_floor(m) == c,
    decreases c,
{
    if c == 0 {
        assert(spec_pow10(1) == 10);
    } else {
        assert(spec_pow10(c) == 10 * spec_pow10((c - 1) as nat));
        assert(spec_pow10(c + 1) == 10 * spec_pow10(c));
        assert(m >= 10) by {
            lemma_pow10_monotone(1, c);
        }
        assert(spec_pow10((c - 1) as nat) <= m / 10) by (nonlinear_arith)
            requires
                10 * spec_pow10((c - 1) as nat) <= m,
        ;
        assert(m / 10 < spec_pow10(c)) by (nonlinear_arith)
            requires
                m < 10 * spec_pow10(c),
        ;
        lemma_log10_floor_unique(m / 10, (c - 1) as nat);
    }
}

/// Powers of ten grow with the exponent.
proof fn lemma_pow10_monotone(a: nat, b: nat)
    requires
        a <= b,
    ensures
        spec_pow10(a) <= spec_pow10(b),
        spec_pow10(a) >= 1,
    decreases b,
{
    if a == b {
        lemma_pow10_positive(a);
    } else {
        lemma_pow10_monotone(a, (b - 1) as nat);
        lemma_pow10_positive(b);
    }
}

/// Powers of ten are positive.
proof fn lemma_pow10_positive(e: nat)
    ensures
        spec_pow10(e) >= 1,
    decreases e,
{
    if e > 0 {
        lemma_pow10_positive((e - 1) as nat);
    }
}

/// The eighteenth power of ten, written out.
proof fn lemma_pow10_18()
    ensures
        spec_pow10(18) == 1_000_000_000_000_000_000,
{
    assert(spec_pow10(0) == 1);
    assert(spec_pow10(1) == 10);
    assert(spec_pow10(2) == 100);
    assert(spec_pow10(3) == 1_000);
    assert(spec_pow10(4) == 10_000);
    assert(spec_pow10(5) == 100_000);
    assert(spec_pow10(6) == 1_000_000);
    assert(spec_pow10(7) == 10_000_000);
    assert(spec_pow10(8) == 100_000_000);
    assert(spec_pow10(9) == 1_000_000_000);
    assert(spec_pow10(10) == 10_000_000_000);
    assert(spec_pow10(11) == 100_000_000_000);
    assert(spec_pow10(12) == 1_000_000_000_000);
    assert(spec_pow10(13) == 10_000_000_000_000);
    assert(spec_pow10(14) == 100_000_000_000_000);
    assert(spec_pow10(15) == 1_000_000_000_000_000);
    assert(spec_pow10(16) == 10_000_000_000_000_000);
    assert(spec_pow10(17) == 100_000_000_000_000_000);
    assert(spec_pow10(18) == 1_000_000_000_000_000_000);
}

/// The fixed-point base-ten logarithm of `m` millionths of a millisecond.
pub fn log10_micros(m: u64) -> (r: i64)
    requires
        m <= 1_000_000_000_000_000_000,
    ensures
        r == spec_log10_micros(m as int),
{
    if m == 0 {
        return LOG_FLOOR;
    }
    let mut c: u32 = 0;
    let mut p: u64 = 1;
    while m / p >= 10
        invariant
            1 <= p,
            p == spec_pow10(c as nat),
            p <= m,
            m <= 1_000_000_000_000_000_000,
            c <= 18,
        decreases m - p,
    {
        proof {
            assert(10 * p <= m) by (nonlinear_arith)
                requires
                    p >= 1,
                    m / p >= 10,
                    m >= 0,
            ;
            if c >= 18 {
                lemma_pow10_18();
                assert(p == spec_pow10(18));
                assert(false);
            }
        }
        p = p * 10;
        c = c + 1;
    }
    proof {
        assert(m < 10 * p) by (nonlinear_arith)
            requires
                p >= 1,
                m / p < 10,
                m >= 0,
        ;
        assert(spec_pow10((c + 1) as nat) == 10 * spec_pow10(c as nat));
        lemma_log10_floor_unique(m as nat, c as nat);
    }
    let diff = m - p;
    let denom = 9 * p;
    let frac = ((diff as u128) * 1_000_000 / (denom as u128)) as u64;
    proof {
        assert((diff as int) * 1_000_000 / (9 * (p as int)) < 1_000_000) by (nonlinear_arith)
            requires
                0 <= diff as int,
                (diff as int) < 9 * (p as int),
                p >= 1,
        ;
        assert((diff as int) * 1_000_000 / (9 * (p as int)) >= 0) by (nonlinear_arith)
            requires
                0 <= diff as int,
                p >= 1,
        ;
    }
    (c as i64 - 6) * 1_000_000 + (frac as i64)
}

/// `x` placed before the first element of `s` that is no smaller.
pub open spec fn spec_insert_sample(x: Sample, s: Seq<Sample>) -> Seq<Sample>
    decreases s.len(),
{
    if s.len() == 0 {
        seq![x]
    } else if sample_leq(x, s[0]) {
        seq![x] + s
    } else {
        seq![s[0]] + spec_insert_sample(x, s.drop_first())
    }
}

/// The samples of `s`, in ascending order (insertion sort over the tail).
pub open spec fn spec_sort_samples(s: Seq<Sample>) -> Seq<Sample>
    decreases s.len(),
{
    if s.len() == 0 {
        Seq::empty()
    } else {
        spec_insert_sample(s.last(), spec_sort_samples(s.drop_last()))
    }
}

/// A sequence of samples in ascending order.
pub open spec fn samples_sorted(s: Seq<Sample>) -> bool {
    forall|i: int, j: int| 0 <= i < j < s.len() ==> sample_leq(s[i], s[j])
}

/// Inserting adds one element.
pub proof fn lemma_insert_sample_len(x: Sample, s: Seq<Sample>)
    ensures
        spec_insert_sample(x, s).len() == s.len() + 1,
    decreases s.len(),
{
    if s.len() > 0 && !sample_leq(x, s[0]) {
        lemma_insert_sample_len(x, s.drop_first());
    }
}

/// Sorting keeps the length.
pub proof fn lemma_sort_samples_len(s: Seq<Sample>)
    ensures
        spec_sort_samples(s).len() == s.len(),
    decreases s.len(),
{
    if s.len() > 0 {
        lemma_sort_samples_len(s.drop_last());
        lemma_insert_sample_len(s.last(), spec_sort_samples(s.drop_last()));
    }
}

/// The inserted sequence holds exactly the old elements and `x`.
pub proof fn lemma_insert_sample_contains(x: Sample, s: Seq<Sample>, e: Sample)
    ensures
        spec_insert_sample(x, s).contains(e) <==> (e == x || s.contains(e)),
    decreases s.len(),
{
    if s.len() == 0 {
        crate::seqs::lemma_singleton_contains(x, e);
        assert(!s.contains(e));
    } else if sample_leq(x, s[0]) {
        crate::seqs::lemma_cons_contains(x, s, e);
    } else {
        lemma_insert_sample_contains(x, s.drop_first(), e);
        crate::seqs::lemma_drop_first_contains(s, e);
        crate::seqs::lemma_cons_contains(s[0], spec_insert_sample(x, s.drop_first()), e);
    }
}

/// The sorted sequence holds exactly the old elements.
pub proof fn lemma_sort_samples_contains(s: Seq<Sample>, e: Sample)
    ensures
        spec_sort_samples(s).contains(e) <==> s.contains(e),
    decreases s.len(),
{
    if s.len() == 0 {
        assert(!s.contains(e));
    } else {
        lemma_sort_samples_contains(s.drop_last(), e);
        lemma_insert_sample_contains(s.last(), spec_sort_samples(s.drop_last()), e);
        crate::seqs::lemma_drop_last_contains(s, e);
    }
}

/// Inserting into a sorted sequence keeps it sorted.
pub proof fn lemma_insert_sample_sorted(x: Sample, s: Seq<Sample>)
    requires
        samples_sorted(s),
    ensures
        samples_sorted(spec_insert_sample(x, s)),
    decreases s.len(),
{
    if s.len() == 0 {
    } else if sample_leq(x, s[0]) {
        let t = seq![x] + s;
        assert forall|i: int, j: int| 0 <= i < j < t.len() implies sample_leq(t[i], t[j]) by {
            if i == 0 {
                assert(t[j] == s[j - 1]);
                if j > 1 {
                    assert(sample_leq(s[0], s[j - 1]));
                }
            } else {
                assert(t[i] == s[i - 1] && t[j] == s[j - 1]);
            }
        }
    } else {
        assert(samples_sorted(s.drop_first())) by {
            assert forall|i: int, j: int|
                0 <= i < j < s.drop_first().len() implies sample_leq(
                s.drop_first()[i],
                s.drop_first()[j],
            ) by {
                assert(s.drop_first()[i] == s[i + 1] && s.drop_first()[j] == s[j + 1]);
            }
        }
        lemma_insert_sample_sorted(x, s.drop_first());
        let rest = spec_insert_sample(x, s.drop_first());
        let t = seq![s[0]] + rest;
        lemma_insert_sample_len(x, s.drop_first());
        assert forall|i: int, j: int| 0 <= i < j < t.len() implies sample_leq(t[i], t[j]) by {
            if i == 0 {
                assert(t[j] == rest[j - 1]);
                lemma_insert_sample_contains(x, s.drop_first(), rest[j - 1]);
                if rest[j - 1] == x {
                    assert(!sample_leq(x, s[0]));
                    assert(sample_leq(s[0], x));
                } else {
                    let k = choose|k: int|
                        0 <= k < s.drop_first().len() && s.drop_first()[k] == rest[j - 1];
                    assert(s[k + 1] == rest[j - 1]);
                    assert(sample_leq(s[0], s[k + 1]));
                }
            } else {
                assert(t[i] == rest[i - 1] && t[j] == rest[j - 1]);
            }
        }
    }
}

/// The sort produces an ascending sequence.
pub proof fn lemma_sort_samples_sorted(s: Seq<Sample>)
    ensures
        samples_sorted(spec_sort_samples(s)),
    decreases s.len(),
{
    if s.len() > 0 {
        lemma_sort_samples_sorted(s.drop_last());
        lemma_insert_sample_sorted(s.last(), spec_sort_samples(s.drop_last()));
    }
}

/// Scanning to the first position whose element is no smaller than `x`
/// realises the recursive insertion as a sequence insertion.
proof fn lemma_insert_sample_at(x: Sample, s: Seq<Sample>, j: int)
    requires
        0 <= j <= s.len(),
        forall|k: int| 0 <= k < j ==> !sample_leq(x, s[k]),
        j == s.len() || sample_leq(x, s[j]),
    ensures
        spec_insert_sample(x, s) == s.insert(j, x),
    decreases s.len(),
{
    if j == 0 {
        if s.len() == 0 {
            assert(spec_insert_sample(x, s) =~= s.insert(0, x));
        } else {
            assert(seq![x] + s =~= s.insert(0, x));
        }
    } else {
        let d = s.drop_first();
        assert(forall|k: int| 0 <= k < j - 1 ==> d[k] == s[k + 1]);
        if j < s.len() {
            assert(d[j - 1] == s[j]);
        }
        lemma_insert_sample_at(x, d, j - 1);
        s.insert(j, x).insert_ensures(j, x);
        d.insert(j - 1, x).insert_ensures(j - 1, x);
        assert(seq![s[0]] + d.insert(j - 1, x) =~= s.insert(j, x)) by {
            d.insert_ensures(j - 1, x);
            s.insert_ensures(j, x);
            assert forall|i: int|
                0 <= i < (seq![s[0]] + d.insert(j - 1, x)).len() implies (seq![s[0]] + d.insert(
                j - 1,
                x,
            ))[i] == s.insert(j, x)[i] by {
                if i > 0 {
                    assert((seq![s[0]] + d.insert(j - 1, x))[i] == d.insert(j - 1, x)[i - 1]);
                    if i - 1 < j - 1 {
                        assert(d.insert(j - 1, x)[i - 1] == d[i - 1]);
                        assert(d[i - 1] == s[i]);
                        assert(s.insert(j, x)[i] == s[i]);
                    } else if i - 1 == j - 1 {
                        assert(d.insert(j - 1, x)[j - 1] == x);
                        assert(s.insert(j, x)[j] == x);
                    } else {
                        assert(d.insert(j - 1, x)[i - 1] == d[i - 2]);
                        assert(d[i - 2] == s[i - 1]);
                        assert(s.insert(j, x)[i] == s[i - 1]);
                    }
                } else {
                    assert(s.insert(j, x)[0] == s[0]);
                }
            }
        }
    }
}

/// Inserting an element no smaller than every element of an ascending
/// sequence appends it.
proof fn lemma_insert_sample_ge_all(x: Sample, s: Seq<Sample>)
    requires
        samples_sorted(s),
        forall|k: int| 0 <= k < s.len() ==> sample_leq(#[trigger] s[k], x),
    ensures
        spec_insert_sample(x, s) == s.push(x),
    decreases s.len(),
{
    if s.len() == 0 {
        assert(seq![x] =~= s.push(x));
    } else if sample_leq(x, s[0]) {
        assert forall|k: int| 0 <= k < s.len() implies s[k] == x by {
            assert(sample_leq(s[k], x));
            if k > 0 {
                assert(sample_leq(s[0], s[k]));
            }
            assert(s[k].secs == x.secs && s[k].nanos == x.nanos);
        }
        assert(seq![x] + s =~= s.push(x));
    } else {
        let d = s.drop_first();
        assert(forall|k: int| 0 <= k < d.len() ==> d[k] == s[k + 1]);
        assert(samples_sorted(d));
        lemma_insert_sample_ge_all(x, d);
        assert(seq![s[0]] + d.push(x) =~= s.push(x));
    }
}

/// Sorting an already ascending sequence leaves it unchanged.
pub proof fn lemma_sort_samples_of_sorted(s: Seq<Sample>)
    requires
        samples_sorted(s),
    ensures
        spec_sort_samples(s) == s,
    decreases s.len(),
{
    if s.len() > 0 {
        let d = s.drop_last();
        assert(forall|k: int| 0 <= k < d.len() ==> d[k] == s[k]);
        assert(samples_sorted(d));
        lemma_sort_samples_of_sorted(d);
        assert(forall|k: int| 0 <= k < d.len() ==> sample_leq(#[trigger] d[k], s.last()));
        lemma_insert_sample_ge_all(s.last(), d);
        assert(d.push(s.last()) =~= s);
    }
}

/// Inserts a sample into an ascending vector, keeping it ascending.
fn insert_sample_sorted(v: &mut Vec<Sample>, x: Sample)
    ensures
        final(v)@ == spec_insert_sample(x, old(v)@),
{
    let mut j: usize = 0;
    loop
        invariant
            j <= v@.len(),
            v@ == old(v)@,
            forall|k: int| 0 <= k < j ==> !sample_leq(x, v@[k]),
        ensures
            j <= v@.len(),
            v@ == old(v)@,
            forall|k: int| 0 <= k < j ==> !sample_leq(x, v@[k]),
            j == v@.len() || sample_leq(x, v@[j as int]),
        decreases v@.len() - j,
    {
        if j >= v.len() {
            break ;
        }
        let y = v[j];
        if sample_leq_exec(&x, &y) {
            break ;
        }
        j = j + 1;
    }
    proof {
        lemma_insert_sample_at(x, v@, j as int);
    }
    v.insert(j, x);
}

/// Sorts the samples ascending, in place.
pub fn sort_samples(v: &mut Vec<Sample>)
    ensures
        final(v)@ == spec_sort_samples(old(v)@),
{
    let n = v.len();
    let mut out: Vec<Sample> = Vec::new();
    let mut i: usize = 0;
    while i < n
        invariant
            i <= n,
            n == v@.len(),
            v@ == old(v)@,
            out@ == spec_sort_samples(v@.take(i as int)),
        decreases n - i,
    {
        let x = v[i];
        insert_sample_sorted(&mut out, x);
        proof {
            assert(v@.take(i + 1).drop_last() =~= v@.take(i as int));
            assert(v@.take(i + 1).last() == v@[i as int]);
        }
        i = i + 1;
    }
    proof {
        assert(v@.take(n as int) =~= v@);
    }
    *v = out;
}

/// The median of an ascending sample sequence, in millionths of a
/// millisecond. An empty log reads as one millisecond; an even length takes
/// the arithmetic mean of the two middle samples.
pub open spec fn spec_median_micros(sorted: Seq<Sample>) -> int {
    let n = sorted.len() as int;
    if n == 0 {
        1_000_000
    } else if n % 2 == 1 {
        sorted[n / 2].spec_clamped_millis() * 1_000_000
    } else {
        (sorted[n / 2].spec_clamped_millis() + sorted[n / 2 - 1].spec_clamped_millis()) * 500_000
    }
}

/// Reads the median of an ascending sample log.
pub fn median_micros(v: &Vec<Sample>) -> (r: u64)
    requires
        forall|i: int| 0 <= i < v@.len() ==> (#[trigger] v@[i]).wf(),
    ensures
        r == spec_median_micros(v@),
        r <= 1_000_000_000_000_000_000,
{
    let n = v.len();
    if n == 0 {
        1_000_000
    } else if n % 2 == 1 {
        let m = v[n / 2].clamped_millis();
        m * 1_000_000
    } else {
        let a = v[n / 2].clamped_millis();
        let b = v[n / 2 - 1].clamped_millis();
        (a + b) * 500_000
    }
}

/// The share of successful requests, in millionths: zero when nothing has
/// been observed yet.
pub open spec fn spec_success_rate_micros(successful: u32, requests: u32) -> int {
    if requests == 0 {
        0
    } else {
        (successful as int) * 1_000_000 / (requests as int)
    }
}

/// Reads the success rate of a counter pair.
pub fn success_rate_micros(successful: u32, requests: u32) -> (r: i64)
    requires
        successful <= requests,
    ensures
        r == spec_success_rate_micros(successful, requests),
        0 <= r <= 1_000_000,
{
    if requests == 0 {
        0
    } else {
        let r = (successful as u64) * 1_000_000 / (requests as u64);
        proof {
            assert((successful as int) * 1_000_000 / (requests as int) <= 1_000_000
                && (successful as int) * 1_000_000 / (requests as int) >= 0) by (nonlinear_arith)
                requires
                    0 <= successful <= requests,
                    requests >= 1,
            ;
        }
        r as i64
    }
}

/// A score multiplied by a rate in millionths, rounded toward zero.
pub open spec fn spec_scaled(w: int, rate: int) -> int {
    if w >= 0 {
        w * rate / 1_000_000
    } else {
        -((-w) * rate / 1_000_000)
    }
}

/// The initial weight: response-time weight times success rate, plus trust
/// level and vendor score.
pub open spec fn spec_initial_weight(
    median_micros: int,
    successful: u32,
    requests: u32,
    trust_level: i64,
    vendor_score: i64,
) -> int {
    spec_scaled(
        SCORE_ONE - spec_log10_micros(median_micros),
        spec_success_rate_micros(successful, requests),
    ) + trust_level + vendor_score
}

/// The current weight: the initial weight plus a connection penalty for each
/// checked-out connection.
pub open spec fn spec_current_weight(initial: int, active_connections: u8) -> int {
    initial + active_connections * CONNECTION_WEIGHT
}

/// Both weights of a relay, as a function of its raw telemetry. The sample
/// log is read through its ascending reordering.
pub open spec fn spec_weights_of(
    response_times: Seq<Sample>,
    successful: u32,
    requests: u32,
    trust_level: i64,
    vendor_score: i64,
    active_connections: u8,
) -> (int, int) {
    let initial = spec_initial_weight(
        spec_median_micros(spec_sort_samples(response_times)),
        successful,
        requests,
        trust_level,
        vendor_score,
    );
    (initial, spec_current_weight(initial, active_connections))
}

/// The fixed-point logarithm stays within (-7, 13) score units.
pub proof fn lemma_log10_micros_bounds(m: int)
    requires
        m <= 1_000_000_000_000_000_000,
    ensures
        LOG_FLOOR <= spec_log10_micros(m) < 13_000_000,
{
    if m > 0 {
        let c = spec_log10_floor(m as nat);
        let p = spec_pow10(c);
        lemma_pow10_bounds(m as nat);
        lemma_pow10_positive(c);
        assert(0 <= (m - p) * 1_000_000 / (9 * p as int) < 1_000_000) by (nonlinear_arith)
            requires
                p >= 1,
                p <= m,
                m < 10 * p,
        ;
    }
}

/// The floor logarithm of a value up to 10^18 is at most 18, and its power
/// of ten brackets the value.
proof fn lemma_pow10_bounds(m: nat)
    requires
        m >= 1,
        m <= 1_000_000_000_000_000_000,
    ensures
        spec_log10_floor(m) <= 18,
        spec_pow10(spec_log10_floor(m)) <= m,
        m < 10 * spec_pow10(spec_log10_floor(m)),
    decreases m,
{
    if m < 10 {
        assert(spec_pow10(0) == 1);
    } else {
        lemma_pow10_bounds(m / 10);
        let c = spec_log10_floor(m / 10);
        assert(spec_log10_floor(m) == 1 + c);
        assert(spec_pow10((1 + c) as nat) == 10 * spec_pow10(c));
        assert(10 * spec_pow10(c) <= m) by (nonlinear_arith)
            requires
                spec_pow10(c) <= m / 10,
                m >= 10,
        ;
        assert(m < 10 * (10 * spec_pow10(c))) by (nonlinear_arith)
            requires
                m / 10 < 10 * spec_pow10(c),
                m >= 0,
        ;
        if 1 + c > 18 {
            lemma_pow10_18();
            lemma_pow10_monotone(18, c as nat);
            assert(spec_pow10(c) >= 1_000_000_000_000_000_000);
            assert(m / 10 >= spec_pow10(c));
            assert(false);
        }
    }
}

/// Computes a relay's weights from its telemetry, sorting the sample log in
/// place.
///
/// Returns the initial weight (quality alone) and the current weight
/// (quality plus the in-flight connection penalty), in millionths.
pub fn calculate_weights(
    response_times: &mut Vec<Sample>,
    successful_requests: u32,
    total_requests: u32,
    trust_level: i64,
    vendor_score: i64,
    active_connections: u8,
) -> (r: (i64, i64))
    requires
        forall|i: int| 0 <= i < old(response_times)@.len() ==> (#[trigger] old(
            response_times,
        )@[i]).wf(),
        successful_requests <= total_requests,
        0 <= trust_level <= SCORE_ONE,
        0 <= vendor_score <= SCORE_ONE,
    ensures
        final(response_times)@ == spec_sort_samples(old(response_times)@),
        (r.0 as int, r.1 as int) == spec_weights_of(
            old(response_times)@,
            successful_requests,
            total_requests,
            trust_level,
            vendor_score,
            active_connections,
        ),
        -13_000_000 <= r.0 <= 9_000_000,
        -13_000_000 <= r.1 <= 35_000_000,
{
    sort_samples(response_times);
    proof {
        assert forall|i: int|
            0 <= i < response_times@.len() implies (#[trigger] response_times@[i]).wf() by {
            assert(response_times@.contains(response_times@[i]));
            lemma_sort_samples_contains(old(response_times)@, response_times@[i]);
            let k = choose|k: int|
                0 <= k < old(response_times)@.len() && old(response_times)@[k]
                    == response_times@[i];
        }
    }
    let median = median_micros(response_times);
    let lg = log10_micros(median);
    proof {
        lemma_log10_micros_bounds(median as int);
    }
    let rtw = SCORE_ONE - lg;
    let rate = success_rate_micros(successful_requests, total_requests);
    let scaled = if rtw >= 0 {
        proof {
            assert(0 <= rtw * rate <= rtw * 1_000_000) by (nonlinear_arith)
                requires
                    0 <= rtw,
                    0 <= rate <= 1_000_000,
            ;
        }
        rtw * rate / SCORE_ONE
    } else {
        proof {
            assert(0 <= (-rtw) * rate <= (-rtw) * 1_000_000) by (nonlinear_arith)
                requires
                    0 <= -rtw,
                    0 <= rate <= 1_000_000,
            ;
        }
        -((-rtw) * rate / SCORE_ONE)
    };
    let initial = scaled + trust_level + vendor_score;
    let current = initial + (active_connections as i64) * CONNECTION_WEIGHT;
    (initial, current)
}

} // verus!
