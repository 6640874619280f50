use asteria::devtools::config::AofConfig;
use asteria::devtools::inspector::AofInspector;

#[test]
fn inspector_banner_full() {
    let lines = AofInspector::init(AofConfig::full_inspection());
    assert_eq!(
        lines,
        vec![
            "── ASTERIA Observability Framework (AOF) Initialized ──",
            "  [x] Event Tracing Enabled",
            "  [x] Snapshots Enabled",
            "  [x] Metrics & Energy Diagnostics Enabled",
            "  [x] Chrome Trace JSON Export Enabled",
            "───────────────────────────────────────────────────────\n",
        ]
    );
}

#[test]
fn inspector_banner_partial_and_off() {
    let config = AofConfig { enabled: true, enable_metrics: true, ..AofConfig::default() };
    let lines = AofInspector::init(config);
    assert_eq!(lines.len(), 3);
    assert_eq!(lines[1], "  [x] Metrics & Energy Diagnostics Enabled");
    let off = AofConfig { enabled: false, ..AofConfig::full_inspection() };
    assert!(AofInspector::init(off).is_empty());
}
