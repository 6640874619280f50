//! Runtime switches for the observability framework.

use vstd::prelude::*;

verus! {

/// Observability switches; `enabled` is the master switch.
#[derive(Debug, Clone, Copy, PartialEq, Eq, Default, Structural)]
pub struct AofConfig {
    pub enabled: bool,
    pub enable_tracing: bool,
    pub enable_snapshots: bool,
    pub enable_metrics: bool,
    pub enable_export: bool,
}

/// The global flags a configuration sets: the master switch, then tracing,
/// snapshots, metrics and export, each on only when the master switch is.
#[derive(Debug, Clone, Copy, PartialEq, Eq, Structural)]
pub struct AofFlags {
    pub aof: bool,
    pub trace: bool,
    pub snapshot: bool,
    pub metrics: bool,
    pub export: bool,
}

impl AofConfig {
    /// Everything enabled, for full inspection.
    pub fn full_inspection() -> (res: Self)
        ensures
            res == (AofConfig {
                enabled: true,
                enable_tracing: true,
                enable_snapshots: true,
                enable_metrics: true,
                enable_export: true,
            }),
    {
        AofConfig {
            enabled: true,
            enable_tracing: true,
            enable_snapshots: true,
            enable_metrics: true,
            enable_export: true,
        }
    }

    /// The values `apply` stores in the global flags.
    pub fn flags(&self) -> (res: AofFlags)
        ensures
            res == (AofFlags {
                aof: self.enabled,
                trace: self.enabled && self.enable_tracing,
                snapshot: self.enabled && self.enable_snapshots,
                metrics: self.enabled && self.enable_metrics,
                export: self.enabled && self.enable_export,
            }),
    {
        AofFlags {
            aof: self.enabled,
            trace: self.enabled && self.enable_tracing,
            snapshot: self.enabled && self.enable_snapshots,
            metrics: self.enabled && self.enable_metrics,
            export: self.enabled && self.enable_export,
        }
    }
}

} // verus!
