use vstd::prelude::*;

verus! {

/// Largest coefficient a weight may have.
pub const MAX_WEIGHT: u32 = 1000;

/// The coefficients of the score, each in hundredths (100 stands for a
/// weight of 1), so that every term of the score is in hundredths of a
/// frequency unit. The finger-speed term multiplies a same-finger weight,
/// the speed weight and a travel distance, all in hundredths, and divides
/// by 10 000. The baselines are frequencies. Each pattern weight is a
/// magnitude; whether it rewards or penalises is fixed by the scoring
/// model.
#[derive(Clone, Copy, Debug, PartialEq, Eq, Structural)]
pub struct Weights {
    /// Scale of the per-key effort.
    pub heatmap: u32,
    /// Scale of the usage above each finger's baseline.
    pub overuse_penalty: u32,
    /// Baseline usage of each finger class, in frequency units.
    pub bias_pinky: u32,
    pub bias_ring: u32,
    pub bias_middle: u32,
    pub bias_index: u32,
    /// Scale of the finger-speed term.
    pub speed: u32,
    /// Weights of same-finger bigrams and of same-finger skipgrams over one,
    /// two and three keys.
    pub sfb: u32,
    pub skip1: u32,
    pub skip2: u32,
    pub skip3: u32,
    /// Penalties of the fixed position-pair lists.
    pub scissors: u32,
    pub lateral_stretch: u32,
    pub pinky_ring: u32,
    /// Rewards of trigram patterns.
    pub inroll: u32,
    pub outroll: u32,
    pub onehand: u32,
    pub alternate: u32,
    pub alternate_sfs: u32,
    /// Penalties of trigram patterns.
    pub redirect: u32,
    pub redirect_sfs: u32,
    pub bad_redirect: u32,
    pub bad_redirect_sfs: u32,
}

impl Weights {
    /// Every coefficient but the baselines is at most `MAX_WEIGHT`.
    pub open spec fn wf(&self) -> bool {
        &&& self.heatmap <= MAX_WEIGHT
        &&& self.overuse_penalty <= MAX_WEIGHT
        &&& self.speed <= MAX_WEIGHT
        &&& self.sfb <= MAX_WEIGHT
        &&& self.skip1 <= MAX_WEIGHT
        &&& self.skip2 <= MAX_WEIGHT
        &&& self.skip3 <= MAX_WEIGHT
        &&& self.scissors <= MAX_WEIGHT
        &&& self.lateral_stretch <= MAX_WEIGHT
        &&& self.pinky_ring <= MAX_WEIGHT
        &&& self.inroll <= MAX_WEIGHT
        &&& self.outroll <= MAX_WEIGHT
        &&& self.onehand <= MAX_WEIGHT
        &&& self.alternate <= MAX_WEIGHT
        &&& self.alternate_sfs <= MAX_WEIGHT
        &&& self.redirect <= MAX_WEIGHT
        &&& self.redirect_sfs <= MAX_WEIGHT
        &&& self.bad_redirect <= MAX_WEIGHT
        &&& self.bad_redirect_sfs <= MAX_WEIGHT
    }

    pub fn is_valid(&self) -> (r: bool)
        ensures
            r == self.wf(),
    {
        self.heatmap <= MAX_WEIGHT && self.overuse_penalty <= MAX_WEIGHT && self.speed
            <= MAX_WEIGHT && self.sfb <= MAX_WEIGHT && self.skip1 <= MAX_WEIGHT && self.skip2
            <= MAX_WEIGHT && self.skip3 <= MAX_WEIGHT && self.scissors <= MAX_WEIGHT
            && self.lateral_stretch <= MAX_WEIGHT && self.pinky_ring <= MAX_WEIGHT && self.inroll
            <= MAX_WEIGHT && self.outroll <= MAX_WEIGHT && self.onehand <= MAX_WEIGHT
            && self.alternate <= MAX_WEIGHT && self.alternate_sfs <= MAX_WEIGHT && self.redirect
            <= MAX_WEIGHT && self.redirect_sfs <= MAX_WEIGHT && self.bad_redirect <= MAX_WEIGHT
            && self.bad_redirect_sfs <= MAX_WEIGHT
    }
}

} // verus!
