//! Likelihood models over latent allele frequencies.

use vstd::prelude::*;

verus! {

/// Likelihood model for a single sample. It has no parameters: the allele
/// frequency of the sample is its only latent variable. Evaluating it over a
/// pileup is arithmetic on log probabilities in floating point, which is left
/// to the user of the model.
#[derive(Clone, Copy, Debug)]
pub struct SampleLikelihoodModel {}

impl SampleLikelihoodModel {
    /// Create a new model.
    pub fn new() -> (model: Self)
        ensures
            model == (SampleLikelihoodModel {}),
    {
        SampleLikelihoodModel {}
    }
}

} // verus!
