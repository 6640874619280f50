//! Energy diagnostics: counters of costly operations and the battery
//! impact they suggest.

use vstd::prelude::*;

verus! {

/// Estimated energy impact.
#[derive(Debug, Clone, Copy, PartialEq, Eq, Structural)]
pub enum EnergyImpact {
    Low,
    Medium,
    High,
}

impl Default for EnergyImpact {
    fn default() -> (res: Self)
        ensures
            res == EnergyImpact::Low,
    {
        EnergyImpact::Low
    }
}

/// Counters of energy-relevant operations during a frame.
#[derive(Debug, Clone)]
pub struct EnergyDiagnostics {
    pub thread_wakeups: usize,
    pub bytes_copied: usize,
    pub gpu_uploads: usize,
    pub allocations: usize,
    pub impact: EnergyImpact,
}

/// The impact the counters suggest: high above 100 allocations, 3 GPU
/// uploads or 8 thread wakeups; medium for any allocation or upload or
/// more than 2 wakeups; low otherwise.
pub open spec fn spec_impact(allocations: usize, gpu_uploads: usize, thread_wakeups: usize) -> EnergyImpact {
    if allocations > 100 || gpu_uploads > 3 || thread_wakeups > 8 {
        EnergyImpact::High
    } else if allocations > 0 || gpu_uploads > 0 || thread_wakeups > 2 {
        EnergyImpact::Medium
    } else {
        EnergyImpact::Low
    }
}

impl EnergyDiagnostics {
    /// All counters zero, impact low.
    pub fn new() -> (res: Self)
        ensures
            res.thread_wakeups == 0,
            res.bytes_copied == 0,
            res.gpu_uploads == 0,
            res.allocations == 0,
            res.impact == EnergyImpact::Low,
    {
        EnergyDiagnostics {
            thread_wakeups: 0,
            bytes_copied: 0,
            gpu_uploads: 0,
            allocations: 0,
            impact: EnergyImpact::Low,
        }
    }

    /// Zero the counters; the recorded impact is kept.
    pub fn reset(&mut self)
        ensures
            final(self).thread_wakeups == 0,
            final(self).bytes_copied == 0,
            final(self).gpu_uploads == 0,
            final(self).allocations == 0,
            final(self).impact == old(self).impact,
    {
        self.thread_wakeups = 0;
        self.bytes_copied = 0;
        self.gpu_uploads = 0;
        self.allocations = 0;
    }

    /// The impact the current counters suggest.
    pub fn analyze_impact(&self) -> (res: EnergyImpact)
        ensures
            res == spec_impact(self.allocations, self.gpu_uploads, self.thread_wakeups),
    {
        if self.allocations > 100 || self.gpu_uploads > 3 || self.thread_wakeups > 8 {
            EnergyImpact::High
        } else if self.allocations > 0 || self.gpu_uploads > 0 || self.thread_wakeups > 2 {
            EnergyImpact::Medium
        } else {
            EnergyImpact::Low
        }
    }
}

/// The estimate only rises when a counter rises.
pub proof fn lemma_impact_monotone(a1: usize, g1: usize, t1: usize, a2: usize, g2: usize, t2: usize)
    requires
        a1 <= a2,
        g1 <= g2,
        t1 <= t2,
    ensures
        spec_impact(a1, g1, t1) == EnergyImpact::High ==> spec_impact(a2, g2, t2)
            == EnergyImpact::High,
        spec_impact(a2, g2, t2) == EnergyImpact::Low ==> spec_impact(a1, g1, t1)
            == EnergyImpact::Low,
{
}

} // verus!
