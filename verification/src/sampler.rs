//! Samplers for the named probability distributions.
//!
//! All values are held in micro-units (millionths): a latency parameter
//! of 150 milliseconds is `150_000_000`, a probability of 0.02 is
//! `20_000`.  Real-valued samples are converted to whole milliseconds by
//! rounding half to even, and negative samples are clamped to zero.
//!
//! The `constant`, `uniform` and `bernoulli` kinds are sampled here from
//! one uniform draw.  The `normal` and `exponential` kinds need a
//! floating-point source; the caller draws the raw micro-unit sample
//! outside and hands it in, and everything after that draw is verified
//! for every value of it.

use vstd::prelude::*;

use crate::model::{Distribution, DistributionV};
use crate::rng::random_u64;
use crate::strmap::map_get;
use crate::validator::{dist_ok, spec_probability_one};

verus! {

/// Round a non-negative micro-unit value to whole units, half to even.
pub open spec fn spec_round_half_even(m: int) -> int {
    let q = m / 1_000_000;
    let r = m % 1_000_000;
    if r < 500_000 {
        q
    } else if r > 500_000 {
        q + 1
    } else if q % 2 == 0 {
        q
    } else {
        q + 1
    }
}

/// Milliseconds slept for a raw micro-unit sample: negatives clamp to
/// zero, the rest rounds half to even.
pub open spec fn spec_latency_ms(raw: int) -> int {
    if raw < 0 {
        0
    } else {
        spec_round_half_even(raw)
    }
}

/// Round a non-negative micro-unit value to whole milliseconds.
pub fn round_half_even(m: u64) -> (r: u64)
    ensures
        r == spec_round_half_even(m as int),
{
    let q: u64 = m / 1_000_000;
    let rem: u64 = m % 1_000_000;
    proof {
        assert(m as int / 1_000_000 <= m as int) by (nonlinear_arith);
    }
    if rem < 500_000 {
        q
    } else if rem > 500_000 {
        q + 1
    } else if q % 2 == 0 {
        q
    } else {
        q + 1
    }
}

/// Convert a raw micro-unit sample to the milliseconds to sleep.
pub fn sample_to_millis(raw: i64) -> (r: u64)
    ensures
        r == spec_latency_ms(raw as int),
{
    if raw < 0 {
        0
    } else {
        round_half_even(raw as u64)
    }
}

/// Rounding to milliseconds is monotone.
pub proof fn lemma_latency_ms_monotone(a: int, b: int)
    requires
        a <= b,
    ensures
        spec_latency_ms(a) <= spec_latency_ms(b),
{
    if 0 <= a {
        let qa = a / 1_000_000;
        let qb = b / 1_000_000;
        vstd::arithmetic::div_mod::lemma_div_is_ordered(a, b, 1_000_000);
        vstd::arithmetic::div_mod::lemma_fundamental_div_mod(a, 1_000_000);
        vstd::arithmetic::div_mod::lemma_fundamental_div_mod(b, 1_000_000);
        assert(0 <= a % 1_000_000 < 1_000_000);
        assert(0 <= b % 1_000_000 < 1_000_000);
        if qa == qb {
            assert(a % 1_000_000 <= b % 1_000_000);
        } else {
            assert(qa < qb);
        }
    }
}

/// A constructed sampler: one variant per distribution kind, parameters
/// in micro-units.
#[derive(Debug, Clone, Copy)]
pub enum Sampler {
    Constant { value: i64 },
    Uniform { min: i64, max: i64 },
    Normal { mean: i64, stddev: i64 },
    Exponential { rate: i64 },
    Bernoulli { p: i64 },
}

/// The sampler carries exactly the parameters of the distribution.
pub open spec fn sampler_matches(s: Sampler, d: DistributionV) -> bool {
    match s {
        Sampler::Constant { value } => d.kind == "constant"@ && map_get(d.params, "value"@)
            == Some(value) && value >= 0,
        Sampler::Uniform { min, max } => d.kind == "uniform"@ && map_get(d.params, "min"@) == Some(
            min,
        ) && map_get(d.params, "max"@) == Some(max) && 0 <= min <= max,
        Sampler::Normal { mean, stddev } => d.kind == "normal"@ && map_get(d.params, "mean"@)
            == Some(mean) && map_get(d.params, "stddev"@) == Some(stddev) && mean >= 0 && stddev
            > 0,
        Sampler::Exponential { rate } => d.kind == "exponential"@ && map_get(d.params, "rate"@)
            == Some(rate) && rate > 0,
        Sampler::Bernoulli { p } => d.kind == "bernoulli"@ && map_get(d.params, "p"@) == Some(p)
            && 0 <= p <= spec_probability_one(),
    }
}

/// Construction failed: the kind that was asked for, and why it was
/// refused.
#[derive(Debug)]
pub struct BadDistribution {
    pub kind: String,
    pub reason: String,
}

impl Sampler {
    /// Construct a sampler from a distribution, validating its
    /// parameters; fails exactly when the distribution is ill-formed.
    pub fn new(d: &Distribution) -> (r: Result<Sampler, BadDistribution>)
        ensures
            r is Ok <==> dist_ok(d@),
            r matches Ok(s) ==> sampler_matches(s, d@),
            r matches Err(e) ==> e.kind@ == d@.kind,
    {
        if crate::text::str_eq(d.distribution_type.as_str(), "normal") {
            match (d.parameters.get("mean"), d.parameters.get("stddev")) {
                (Some(m), Some(s)) => {
                    if *m >= 0 && *s > 0 {
                        return Ok(Sampler::Normal { mean: *m, stddev: *s });
                    }
                },
                _ => (),
            }
        } else if crate::text::str_eq(d.distribution_type.as_str(), "uniform") {
            match (d.parameters.get("min"), d.parameters.get("max")) {
                (Some(mn), Some(mx)) => {
                    if *mn >= 0 && *mn <= *mx {
                        return Ok(Sampler::Uniform { min: *mn, max: *mx });
                    }
                },
                _ => (),
            }
        } else if crate::text::str_eq(d.distribution_type.as_str(), "constant") {
            match d.parameters.get("value") {
                Some(v) => {
                    if *v >= 0 {
                        return Ok(Sampler::Constant { value: *v });
                    }
                },
                None => (),
            }
        } else if crate::text::str_eq(d.distribution_type.as_str(), "exponential") {
            match d.parameters.get("rate") {
                Some(rt) => {
                    if *rt > 0 {
                        return Ok(Sampler::Exponential { rate: *rt });
                    }
                },
                None => (),
            }
        } else if crate::text::str_eq(d.distribution_type.as_str(), "bernoulli") {
            match d.parameters.get("p") {
                Some(p) => {
                    if *p >= 0 && *p <= 1_000_000 {
                        return Ok(Sampler::Bernoulli { p: *p });
                    }
                },
                None => (),
            }
        }
        Err(
            BadDistribution {
                kind: d.distribution_type.clone(),
                reason: "invalid parameters".to_owned(),
            },
        )
    }
}

/// One uniform micro-unit sample in `[min, max]`, from one draw.
pub fn sample_uniform_micros(min: i64, max: i64, draw: u64) -> (m: i64)
    requires
        0 <= min <= max,
    ensures
        min <= m <= max,
        m == min + ((draw as int) % (max - min + 1)),
{
    let span: u64 = ((max - min) as u64) + 1;
    let off: u64 = draw % span;
    min + (off as i64)
}

/// One Bernoulli sample from one draw: true with probability `p`
/// micro-units out of one million.
pub fn sample_bernoulli(p: i64, draw: u64) -> (b: bool)
    requires
        0 <= p <= spec_probability_one(),
    ensures
        b == ((draw as int % spec_probability_one()) < p),
        p == 0 ==> !b,
        p == spec_probability_one() ==> b,
{
    let off: u64 = draw % 1_000_000;
    (off as i64) < p
}

impl Sampler {
    /// The milliseconds to sleep for one latency sample.
    ///
    /// `external` is the raw micro-unit sample that the caller drew for
    /// the `normal` and `exponential` kinds, whose source needs floating
    /// point; it is ignored by the other kinds.  `bernoulli` produces a
    /// boolean, not a latency, so it yields `None` here.
    pub fn sample_millis(&self, draw: u64, external: i64) -> (r: Option<u64>)
        ensures
            match self {
                Sampler::Constant { value } => r == Some(
                    spec_latency_ms(*value as int) as u64,
                ),
                Sampler::Uniform { min, max } => 0 <= *min <= *max ==> (r matches Some(ms)
                    && spec_latency_ms(*min as int) <= ms as int <= spec_latency_ms(
                    *max as int,
                )),
                Sampler::Normal { .. } => r == Some(spec_latency_ms(external as int) as u64),
                Sampler::Exponential { .. } => r == Some(
                    spec_latency_ms(external as int) as u64,
                ),
                Sampler::Bernoulli { .. } => r is None,
            },
    {
        match self {
            Sampler::Constant { value } => Some(sample_to_millis(*value)),
            Sampler::Uniform { min, max } => {
                if 0 <= *min && *min <= *max {
                    let m = sample_uniform_micros(*min, *max, draw);
                    let ms = sample_to_millis(m);
                    proof {
                        lemma_latency_ms_monotone(*min as int, m as int);
                        lemma_latency_ms_monotone(m as int, *max as int);
                    }
                    Some(ms)
                } else {
                    Some(sample_to_millis(*min))
                }
            },
            Sampler::Normal { .. } => Some(sample_to_millis(external)),
            Sampler::Exponential { .. } => Some(sample_to_millis(external)),
            Sampler::Bernoulli { .. } => None,
        }
    }

    /// One latency sample in milliseconds, drawing internally.
    pub fn sample_latency_ms(&self, external: i64) -> (r: Option<u64>)
        ensures
            match self {
                Sampler::Constant { value } => r == Some(
                    spec_latency_ms(*value as int) as u64,
                ),
                Sampler::Uniform { min, max } => 0 <= *min <= *max ==> (r matches Some(ms)
                    && spec_latency_ms(*min as int) <= ms as int <= spec_latency_ms(
                    *max as int,
                )),
                Sampler::Normal { .. } => r == Some(spec_latency_ms(external as int) as u64),
                Sampler::Exponential { .. } => r == Some(
                    spec_latency_ms(external as int) as u64,
                ),
                Sampler::Bernoulli { .. } => r is None,
            },
    {
        let draw = random_u64();
        self.sample_millis(draw, external)
    }

    /// One boolean sample: `Some` exactly for the `bernoulli` kind, and
    /// then certain at its probability bounds.
    pub fn sample_bool(&self) -> (r: Option<bool>)
        ensures
            r is Some <==> self matches Sampler::Bernoulli { .. },
            match self {
                Sampler::Bernoulli { p } => {
                    &&& (0 <= *p && *p == 0 ==> r == Some(false))
                    &&& (*p == spec_probability_one() ==> r == Some(true))
                },
                _ => true,
            },
    {
        match self {
            Sampler::Bernoulli { p } => {
                if 0 <= *p && *p <= 1_000_000 {
                    let draw = random_u64();
                    Some(sample_bernoulli(*p, draw))
                } else {
                    Some(false)
                }
            },
            _ => None,
        }
    }
}

} // verus!
