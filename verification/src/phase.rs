use vstd::prelude::*;

verus! {

/// The detected phase of a task pool based on its execution patterns.
///
/// Phases are detected by analysing the information-theoretic properties of
/// task throughput distributions over moving windows.
#[derive(Debug, Clone, Copy, PartialEq, Eq, Hash, Structural)]
pub enum RuntimePhase {
    /// Everything is running normally. Task throughput distributions are stable
    /// and no anomalous patterns are detected.
    Nominal,
    /// Some tasks have begun to slow down. The distribution is starting to shift,
    /// but no cascading behaviour is visible yet.
    PreTransition,
    /// A cascade is underway. Correlations are strengthening, transfer entropy
    /// is spiking, and several task groups are starving.
    Transitioning,
    /// The system has stabilised after a transition.
    Recovered,
}

/// The human-readable description of each phase.
pub open spec fn phase_description(p: RuntimePhase) -> Seq<char> {
    match p {
        RuntimePhase::Nominal => "Runtime is operating normally. No anomalous task patterns detected."@,
        RuntimePhase::PreTransition =>
            "Pre-transition: Some tasks are slowing down. Distribution shift detected. Consider preemptive intervention."@,
        RuntimePhase::Transitioning =>
            "Transitioning: Cascade in progress. Strong correlations and information flow detected. Intervention recommended."@,
        RuntimePhase::Recovered =>
            "Recovered: System has stabilized after a transition. Returning to normal monitoring."@,
    }
}

/// The short name of each phase, as it is shown in reports.
pub open spec fn phase_label(p: RuntimePhase) -> Seq<char> {
    match p {
        RuntimePhase::Nominal => "Nominal"@,
        RuntimePhase::PreTransition => "PreTransition"@,
        RuntimePhase::Transitioning => "Transitioning"@,
        RuntimePhase::Recovered => "Recovered"@,
    }
}

/// How far the recent half of a pool's throughput samples has drifted from the
/// baseline half, as the Jensen-Shannon divergence between them compares with
/// the phase thresholds.
#[derive(Debug, Clone, Copy, PartialEq, Eq, Hash, Structural)]
pub enum DivergenceBand {
    /// Below the recovery threshold: the two halves agree closely.
    Settled,
    /// At or above the recovery threshold, below the pre-transition one.
    Steady,
    /// At or above the pre-transition threshold, below the transition one.
    Shifting,
    /// At or above the transition threshold.
    Diverged,
}

/// The phase a divergence band indicates. A settled distribution whose recent
/// samples still vary widely has recovered from a transition rather than being
/// nominal.
pub open spec fn phase_for(band: DivergenceBand, low_variance: bool) -> RuntimePhase {
    match band {
        DivergenceBand::Settled => if low_variance {
            RuntimePhase::Nominal
        } else {
            RuntimePhase::Recovered
        },
        DivergenceBand::Steady => RuntimePhase::Nominal,
        DivergenceBand::Shifting => RuntimePhase::PreTransition,
        DivergenceBand::Diverged => RuntimePhase::Transitioning,
    }
}

/// How each phase arises. Only the highest band means a transition, only the
/// band just below it a pre-transition; recovery is a settled band whose recent
/// samples still vary widely; everything else is nominal. The variance matters
/// only in the settled band.
pub proof fn lemma_phase_bands(band: DivergenceBand, low_variance: bool)
    ensures
        (phase_for(band, low_variance) == RuntimePhase::Transitioning) <==> band == DivergenceBand::Diverged,
        (phase_for(band, low_variance) == RuntimePhase::PreTransition) <==> band == DivergenceBand::Shifting,
        (phase_for(band, low_variance) == RuntimePhase::Recovered) <==> (band == DivergenceBand::Settled
            && !low_variance),
        (phase_for(band, low_variance) == RuntimePhase::Nominal) <==> (band == DivergenceBand::Steady || (band
            == DivergenceBand::Settled && low_variance)),
        band != DivergenceBand::Settled ==> phase_for(band, true) == phase_for(band, false),
        phase_for(DivergenceBand::Steady, low_variance) == RuntimePhase::Nominal,
{
}

impl RuntimePhase {
    /// Human-readable description of the phase.
    pub fn description(&self) -> (s: &'static str)
        ensures
            s@ == phase_description(*self),
    {
        match self {
            RuntimePhase::Nominal => "Runtime is operating normally. No anomalous task patterns detected.",
            RuntimePhase::PreTransition =>
                "Pre-transition: Some tasks are slowing down. Distribution shift detected. Consider preemptive intervention.",
            RuntimePhase::Transitioning =>
                "Transitioning: Cascade in progress. Strong correlations and information flow detected. Intervention recommended.",
            RuntimePhase::Recovered =>
                "Recovered: System has stabilized after a transition. Returning to normal monitoring.",
        }
    }

    /// Classify the runtime phase from the divergence band of the pooled
    /// samples and whether the recent samples' variance is below its limit.
    pub fn from_divergence(band: DivergenceBand, low_variance: bool) -> (r: RuntimePhase)
        ensures
            r == phase_for(band, low_variance),
    {
        match band {
            DivergenceBand::Settled => {
                if low_variance {
                    RuntimePhase::Nominal
                } else {
                    RuntimePhase::Recovered
                }
            },
            DivergenceBand::Steady => RuntimePhase::Nominal,
            DivergenceBand::Shifting => RuntimePhase::PreTransition,
            DivergenceBand::Diverged => RuntimePhase::Transitioning,
        }
    }

    /// The phase's name, as reports print it.
    pub fn label(&self) -> (s: &'static str)
        ensures
            s@ == phase_label(*self),
    {
        match self {
            RuntimePhase::Nominal => "Nominal",
            RuntimePhase::PreTransition => "PreTransition",
            RuntimePhase::Transitioning => "Transitioning",
            RuntimePhase::Recovered => "Recovered",
        }
    }
}

} // verus!
