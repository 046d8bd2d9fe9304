use vstd::prelude::*;

verus! {

/// The top-K value used when a request carries none.
pub const DEFAULT_K: u32 = 1;

/// The score-threshold bit pattern used when a request carries none:
/// the IEEE-754 bits of `0.0f32`, which filters nothing out.
pub const DEFAULT_THRESHOLD_BITS: u32 = 0;

/// The effective top-K for a caller-supplied value: a supplied `0` is
/// floored to `1`, a deliberate floor rather than an error, so that a
/// caller asking for no labels still receives the top one.
pub open spec fn k_floored(k: u32) -> u32 {
    if k == 0 {
        1
    } else {
        k
    }
}

/// Options applying to a prediction: how many ranked labels to return at
/// most, and the minimum confidence below which the model drops a label.
///
/// Both fields are optional, as they are in a request; the `effective_*`
/// methods apply the documented defaults. The threshold is carried as the
/// IEEE-754 bit pattern of the caller's `f32`, which this crate passes
/// through untouched.
pub struct PredictOptions {
    pub k: Option<u32>,
    pub threshold_bits: Option<u32>,
}

impl PredictOptions {
    /// The top-K this request asks for, after defaulting and flooring.
    pub open spec fn spec_effective_k(self) -> u32 {
        k_floored(match self.k {
            Some(k) => k,
            None => DEFAULT_K,
        })
    }

    /// The threshold bits this request asks for, after defaulting.
    pub open spec fn spec_effective_threshold_bits(self) -> u32 {
        match self.threshold_bits {
            Some(t) => t,
            None => DEFAULT_THRESHOLD_BITS,
        }
    }

    pub fn new(k: Option<u32>, threshold_bits: Option<u32>) -> (r: PredictOptions)
        ensures
            r.k == k,
            r.threshold_bits == threshold_bits,
    {
        PredictOptions { k, threshold_bits }
    }

    /// The top-K actually used: the caller's value if positive, the
    /// default where none was supplied, and `1` where `0` was supplied.
    pub fn effective_k(&self) -> (r: u32)
        ensures
            r == self.spec_effective_k(),
            r >= 1,
    {
        let k = match self.k {
            Some(k) => k,
            None => DEFAULT_K,
        };
        if k == 0 {
            1
        } else {
            k
        }
    }

    /// The threshold bits actually used: the caller's value, or the bits
    /// of `0.0` where none was supplied.
    pub fn effective_threshold_bits(&self) -> (r: u32)
        ensures
            r == self.spec_effective_threshold_bits(),
    {
        match self.threshold_bits {
            Some(t) => t,
            None => DEFAULT_THRESHOLD_BITS,
        }
    }
}

impl Default for PredictOptions {
    /// The documented defaults: top-K of `1` and a threshold of `0.0`.
    fn default() -> (r: PredictOptions)
        ensures
            r.k == Some(DEFAULT_K),
            r.threshold_bits == Some(DEFAULT_THRESHOLD_BITS),
            r.spec_effective_k() == DEFAULT_K,
            r.spec_effective_threshold_bits() == DEFAULT_THRESHOLD_BITS,
    {
        PredictOptions { k: Some(DEFAULT_K), threshold_bits: Some(DEFAULT_THRESHOLD_BITS) }
    }
}

} // verus!
