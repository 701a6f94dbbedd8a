use tetra_pd::interop::{log_enabled_interop_gates, InteropRecord};
use tetra_pd::sec_llc::{validate_advanced_link_config, AdvancedLinkDto, CfgLlc, InteropProfile};

fn cfg_with_profile(profile: InteropProfile) -> CfgLlc {
    let al = validate_advanced_link_config(AdvancedLinkDto::default()).unwrap();
    CfgLlc { interop_profile: profile, advanced_link: al }
}

fn has_gate(log: &[InteropRecord], name: &str) -> bool {
    log.iter().any(|r| matches!(r, InteropRecord::Gate { gate, .. } if gate.contains(name)))
}

#[test]
fn t6_warn_log_when_n273_zero_ack_uses_seg_cap_enabled() {
    let mut cfg = CfgLlc::default();
    cfg.advanced_link.n273_zero_ack_uses_seg_cap = true;
    let mut log = Vec::new();
    let _ = log_enabled_interop_gates(&cfg, &mut log);
    let spec = log
        .iter()
        .find_map(|r| match r {
            InteropRecord::Gate { gate, spec, .. }
                if gate.contains("n273_zero_ack_uses_seg_cap") =>
            {
                Some(*spec)
            }
            _ => None,
        })
        .expect("T6: expected a WARN log that names the setting");
    assert!(spec.contains("§22.3.3.2"), "T6: WARN log must cite ETSI §22.3.3.2");
}

#[test]
fn t7_no_warn_log_when_all_gates_off() {
    let mut cfg = CfgLlc { interop_profile: InteropProfile::Custom, ..CfgLlc::default() };
    cfg.advanced_link.dedupe_completed_ns = false;
    cfg.advanced_link.h47_cached_echo_clears_rx = false;
    cfg.advanced_link.n273_zero_ack_uses_seg_cap = false;
    let mut log = Vec::new();
    let count = log_enabled_interop_gates(&cfg, &mut log);
    assert_eq!(count, 0, "no gates should be reported enabled");
    let interop_warns = log.iter().filter(|r| matches!(r, InteropRecord::Gate { .. })).count();
    assert_eq!(
        interop_warns, 0,
        "T7: no WARN 'interop gate' log expected when all gates are off"
    );
}

#[test]
fn c6_profile_info_log_always_fires() {
    for (profile, name) in [
        (InteropProfile::Standard, "standard"),
        (InteropProfile::Mtp3550Interop, "mtp3550_interop"),
        (InteropProfile::Mtp6550Interop, "mtp6550_interop"),
        (InteropProfile::Custom, "custom"),
    ] {
        let mut log = Vec::new();
        let _ = log_enabled_interop_gates(&cfg_with_profile(profile), &mut log);
        let named = log
            .iter()
            .find_map(|r| match r {
                InteropRecord::Profile { interop_profile, .. } => Some(interop_profile.name()),
                _ => None,
            })
            .unwrap_or_else(|| panic!("profile {:?}: missing INFO 'interop_profile' log", profile));
        assert_eq!(named, name, "profile {:?}: INFO log must name the profile", profile);
    }
}

#[test]
fn c6_mtp3550_profile_fires_h49_h50_warns() {
    let mut log = Vec::new();
    let cfg = cfg_with_profile(InteropProfile::Mtp3550Interop);
    let count = log_enabled_interop_gates(&cfg, &mut log);
    assert_eq!(count, 2, "H49 + H50 must WARN under mtp3550_interop");
    assert!(
        has_gate(&log, "dedupe_completed_ns"),
        "H49 WARN must fire under mtp3550_interop profile"
    );
    assert!(
        has_gate(&log, "h47_cached_echo_clears_rx"),
        "H50 WARN must fire under mtp3550_interop profile"
    );
}

#[test]
fn report_is_appended() {
    let mut log = Vec::new();
    let cfg = CfgLlc::default();
    log_enabled_interop_gates(&cfg, &mut log);
    log_enabled_interop_gates(&cfg, &mut log);
    assert_eq!(log.len(), 6);
    assert!(matches!(log[0], InteropRecord::Profile { .. }));
    assert!(matches!(log[3], InteropRecord::Profile { .. }));
}
