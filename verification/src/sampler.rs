use vstd::prelude::*;
use crate::number::{bernoulli_numerator, dec_in_unit, dec_pos, Dec};

verus! {

/// A distribution descriptor: one tagged variant per distribution the
/// sampling endpoint offers, created fresh from each request body.
#[derive(Clone, Copy, Debug)]
pub enum RngRequest {
    /// A uniform draw of an integer from the half-open range `[start, end)`.
    Uniform { start: i64, end: i64 },
    /// A Gaussian draw with the given mean and standard deviation.
    Normal { mean: Dec, std_dev: Dec },
    /// A draw of one or zero, one with probability `p`.
    Bernoulli { p: Dec },
}

/// What one sampling step produced.
#[derive(Clone, Copy, Debug)]
pub enum Sample {
    /// A uniform draw: an integer-valued sample.
    Int(i64),
    /// A Bernoulli draw: one for success, zero for failure.
    Bit(bool),
}

/// The sampler's verdict on a descriptor: a finished draw, a Gaussian draw
/// that an outside floating-point sampler must finish, or a rejection of
/// out-of-domain parameters.
pub enum SamplePlan {
    Drawn(Sample),
    NeedNormal { mean: Dec, std_dev: Dec },
    Invalid,
}

/// Relies on rand_distr::Uniform over i64 (rand's uniform integer
/// distribution): a sample from `Uniform::from(start..end)` lies in the
/// half-open range `[start, end)`; the range must not be empty.
#[verifier::external_body]
fn uniform_draw(start: i64, end: i64) -> (r: i64)
    requires
        start < end,
    ensures
        start <= r < end,
{
    let d = rand_distr::Uniform::from(start..end);
    rand_distr::Distribution::sample(&d, &mut rand::thread_rng())
}

/// Relies on rand_distr::Bernoulli::from_ratio: with `num <= den`, a
/// numerator of zero can never sample true (its internal threshold is zero),
/// and a numerator equal to the denominator always samples true.
#[verifier::external_body]
fn bernoulli_draw(num: u32, den: u32) -> (r: bool)
    requires
        0 < den,
        num <= den,
    ensures
        num == 0 ==> !r,
        num == den ==> r,
{
    match rand_distr::Bernoulli::from_ratio(num, den) {
        Ok(d) => rand_distr::Distribution::sample(&d, &mut rand::thread_rng()),
        Err(_) => false,
    }
}

/// Draws one sample as the descriptor asks, after validating its parameters.
///
/// A uniform descriptor with an empty range, a Bernoulli probability outside
/// `[0, 1]`, and a non-positive standard deviation are rejected.  A uniform
/// draw is owed a value inside the range; a Bernoulli draw is owed zero under
/// probability zero and one under probability one.  A valid Gaussian
/// descriptor is handed back for an outside floating-point sampler, with its
/// parameters unchanged.
pub fn sample(req: &RngRequest) -> (r: SamplePlan)
    ensures
        match *req {
            RngRequest::Uniform { start, end } => {
                if start < end {
                    r matches SamplePlan::Drawn(Sample::Int(v)) && start <= v < end
                } else {
                    r is Invalid
                }
            },
            RngRequest::Normal { mean, std_dev } => {
                if std_dev.pos() {
                    r == (SamplePlan::NeedNormal { mean, std_dev })
                } else {
                    r is Invalid
                }
            },
            RngRequest::Bernoulli { p } => {
                if p.nonneg() && p.le_one() {
                    r matches SamplePlan::Drawn(Sample::Bit(b)) && (p.is_zero() ==> !b) && (
                    p.eq_one() ==> b)
                } else {
                    r is Invalid
                }
            },
        },
{
    match req {
        RngRequest::Uniform { start, end } => {
            if *start < *end {
                SamplePlan::Drawn(Sample::Int(uniform_draw(*start, *end)))
            } else {
                SamplePlan::Invalid
            }
        },
        RngRequest::Normal { mean, std_dev } => {
            if dec_pos(std_dev) {
                SamplePlan::NeedNormal { mean: *mean, std_dev: *std_dev }
            } else {
                SamplePlan::Invalid
            }
        },
        RngRequest::Bernoulli { p } => {
            if dec_in_unit(p) {
                let num = bernoulli_numerator(p);
                SamplePlan::Drawn(Sample::Bit(bernoulli_draw(num, 1_000_000_000)))
            } else {
                SamplePlan::Invalid
            }
        },
    }
}

} // verus!
