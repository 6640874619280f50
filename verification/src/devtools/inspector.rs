//! The observability framework's announcement of what it records.

use vstd::prelude::*;

use crate::devtools::config::AofConfig;

verus! {

/// The lines announcing a configuration: none when the framework is off;
/// otherwise a title, a line for each enabled feature, and a closing rule.
pub open spec fn banner_lines(config: AofConfig) -> Seq<Seq<char>> {
    if !config.enabled {
        Seq::empty()
    } else {
        seq!["── ASTERIA Observability Framework (AOF) Initialized ──"@]
            + (if config.enable_tracing { seq!["  [x] Event Tracing Enabled"@] } else { Seq::empty() })
            + (if config.enable_snapshots { seq!["  [x] Snapshots Enabled"@] } else { Seq::empty() })
            + (if config.enable_metrics {
            seq!["  [x] Metrics & Energy Diagnostics Enabled"@]
        } else {
            Seq::empty()
        }) + (if config.enable_export {
            seq!["  [x] Chrome Trace JSON Export Enabled"@]
        } else {
            Seq::empty()
        }) + seq!["───────────────────────────────────────────────────────\n"@]
    }
}

/// The observability framework's coordinator.
pub struct AofInspector;

impl AofInspector {
    /// The lines that starting the framework with `config` prints (see
    /// `banner_lines`); the caller applies the configuration's flags.
    pub fn init(config: AofConfig) -> (res: Vec<&'static str>)
        ensures
            res@.map_values(|l: &str| l@) == banner_lines(config),
    {
        let mut lines: Vec<&'static str> = Vec::new();
        if !config.enabled {
            assert(lines@.map_values(|l: &str| l@) =~= banner_lines(config));
            return lines;
        }
        lines.push("── ASTERIA Observability Framework (AOF) Initialized ──");
        if config.enable_tracing {
            lines.push("  [x] Event Tracing Enabled");
        }
        if config.enable_snapshots {
            lines.push("  [x] Snapshots Enabled");
        }
        if config.enable_metrics {
            lines.push("  [x] Metrics & Energy Diagnostics Enabled");
        }
        if config.enable_export {
            lines.push("  [x] Chrome Trace JSON Export Enabled");
        }
        lines.push("───────────────────────────────────────────────────────\n");
        assert(lines@.map_values(|l: &str| l@) =~= banner_lines(config));
        lines
    }
}

} // verus!
