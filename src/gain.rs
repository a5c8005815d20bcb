use vstd::prelude::*;

verus! {

/// Which gain the planner applies.
#[derive(Clone, Copy, Debug, PartialEq, Eq, Structural)]
pub enum GainBranch {
    /// The requested gain, which does not clip.
    Requested,
    /// The requested gain would clip: the gain that reaches the highest safe
    /// level, a fixed margin below full scale, is applied instead.
    SafetyAdjusted,
    /// The requested gain, applied although it clips, because clipping was
    /// explicitly allowed.
    ForcedClip,
}

/// The branch for a request that would clip or not, with clipping allowed
/// or not.
pub open spec fn branch_of(would_clip: bool, force_clip: bool) -> GainBranch {
    if !would_clip {
        GainBranch::Requested
    } else if force_clip {
        GainBranch::ForcedClip
    } else {
        GainBranch::SafetyAdjusted
    }
}

impl GainBranch {
    /// Whether the requested gain is applied as it stands.
    pub open spec fn keeps_request(self) -> bool {
        !(self is SafetyAdjusted)
    }

    pub fn applies_requested_gain(self) -> (r: bool)
        ensures
            r == self.keeps_request(),
    {
        match self {
            GainBranch::SafetyAdjusted => false,
            _ => true,
        }
    }

    /// Whether the outcome calls for a warning.
    pub fn warns(self) -> (r: bool)
        ensures
            r == !(self is Requested),
    {
        match self {
            GainBranch::Requested => false,
            _ => true,
        }
    }
}

/// Decides which gain to apply from the clipping test and the caller's choice.
pub fn choose_gain_branch(would_clip: bool, force_clip: bool) -> (r: GainBranch)
    ensures
        r == branch_of(would_clip, force_clip),
{
    if !would_clip {
        GainBranch::Requested
    } else if force_clip {
        GainBranch::ForcedClip
    } else {
        GainBranch::SafetyAdjusted
    }
}

/// What the planner settles on: the branch taken and the level that the
/// applied gain reaches.
#[derive(Clone, Copy, Debug)]
pub struct GainPlan<L> {
    pub branch: GainBranch,
    pub level: L,
}

/// Plans a normalization: the requested `target` level where it does not
/// clip or clipping is allowed, otherwise `max_safe`, the highest level
/// that stays below full scale by the safety margin.
pub fn plan_gain<L: Copy>(target: L, max_safe: L, would_clip: bool, force_clip: bool) -> (r: GainPlan<L>)
    ensures
        r.branch == branch_of(would_clip, force_clip),
        r.level == if r.branch.keeps_request() {
            target
        } else {
            max_safe
        },
{
    let branch = choose_gain_branch(would_clip, force_clip);
    let level = if branch.applies_requested_gain() {
        target
    } else {
        max_safe
    };
    GainPlan { branch, level }
}

/// Without a clipping risk, the planner keeps the request whatever
/// `force_clip` says; with clipping allowed, it always keeps the request.
pub proof fn lemma_request_kept(would_clip: bool, force_clip: bool)
    ensures
        !would_clip || force_clip <==> branch_of(would_clip, force_clip).keeps_request(),
{
}

} // verus!
