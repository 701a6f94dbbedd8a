use tetra_pd::sec_llc::{
    apply_llc_patch, default_n273_zero_ack_uses_seg_cap, validate_advanced_link_config,
    AdvancedLinkDto, CfgAdvancedLink, CfgLlcDto,
};

/// Reads an `[llc.advanced_link]` section.
fn section(text: &str) -> Result<AdvancedLinkDto, toml::de::Error> {
    let table: toml::Table = text.parse()?;
    let mut dto = defaults();
    for (key, value) in &table {
        let number = value.as_integer();
        let flag = value.as_bool();
        match (key.as_str(), number, flag) {
            ("segment_payload_octets", Some(n), _) => dto.segment_payload_octets = n as u16,
            ("tx_window", Some(n), _) => dto.tx_window = n as u8,
            ("max_sdu_retx", Some(n), _) => dto.max_sdu_retx = n as u8,
            ("max_segment_retx", Some(n), _) => dto.max_segment_retx = n as u8,
            ("max_setup_retries", Some(n), _) => dto.max_setup_retries = n as u8,
            ("max_disc_retries", Some(n), _) => dto.max_disc_retries = n as u8,
            ("max_reconnect_retries", Some(n), _) => dto.max_reconnect_retries = n as u8,
            ("max_tl_sdu_octets", Some(n), _) => dto.max_tl_sdu_octets = n as u16,
            ("proactive_disc_on_retx_exhaust", _, Some(b)) => {
                dto.proactive_disc_on_retx_exhaust = Some(b)
            }
            ("cache_setup_echo", _, Some(b)) => dto.cache_setup_echo = b,
            ("dedupe_completed_ns", _, Some(b)) => dto.dedupe_completed_ns = b,
            ("h47_cached_echo_clears_rx", _, Some(b)) => dto.h47_cached_echo_clears_rx = b,
            ("n273_zero_ack_uses_seg_cap", _, Some(b)) => dto.n273_zero_ack_uses_seg_cap = b,
            (other, _, _) => dto.extra.push(other.to_owned()),
        }
    }
    Ok(dto)
}

fn defaults() -> AdvancedLinkDto {
    AdvancedLinkDto::default()
}

#[test]
fn sec_llc_valid_defaults_accepted() {
    let cfg = validate_advanced_link_config(defaults()).expect("defaults must be valid");
    assert_eq!(cfg.segment_payload_octets, 50);
    assert_eq!(cfg.tx_window, 3);
    assert_eq!(cfg.max_sdu_retx, 3);
    assert_eq!(cfg.max_segment_retx, 3);
    assert_eq!(cfg.max_setup_retries, 3);
    assert_eq!(cfg.max_disc_retries, 3);
    assert_eq!(cfg.max_reconnect_retries, 3);
    assert_eq!(cfg.max_tl_sdu_octets, 4096);
    assert!(cfg.cache_setup_echo);
    assert!(cfg.dedupe_completed_ns);
    assert!(cfg.h47_cached_echo_clears_rx);
    assert!(!cfg.n273_zero_ack_uses_seg_cap);
}

#[test]
fn valid_non_default_values_accepted() {
    let dto = AdvancedLinkDto {
        segment_payload_octets: 48,
        tx_window: 1,
        max_sdu_retx: 0,
        max_segment_retx: 0,
        max_setup_retries: 5,
        max_disc_retries: 5,
        max_reconnect_retries: 0,
        max_tl_sdu_octets: 256,
        ..defaults()
    };
    let cfg = validate_advanced_link_config(dto).expect("should be valid");
    assert_eq!(cfg.segment_payload_octets, 48);
    assert_eq!(cfg.tx_window, 1);
    assert_eq!(cfg.max_tl_sdu_octets, 256);
}

#[test]
fn sec_llc_full_toml_section_parses_and_validates() {
    let toml_str = r#"
        segment_payload_octets = 40
        tx_window = 2
        max_sdu_retx = 5
        max_segment_retx = 10
        max_setup_retries = 4
        max_disc_retries = 4
        max_reconnect_retries = 3
        max_tl_sdu_octets = 512
        proactive_disc_on_retx_exhaust = false
        cache_setup_echo = false
        dedupe_completed_ns = false
        h47_cached_echo_clears_rx = false
        n273_zero_ack_uses_seg_cap = false
    "#;
    let dto: AdvancedLinkDto = section(toml_str).expect("TOML must parse");
    let cfg = validate_advanced_link_config(dto).expect("must validate");
    assert_eq!(cfg.segment_payload_octets, 40);
    assert_eq!(cfg.tx_window, 2);
    assert_eq!(cfg.max_tl_sdu_octets, 512);
    assert!(!cfg.cache_setup_echo);
    assert!(!cfg.dedupe_completed_ns);
    assert!(!cfg.h47_cached_echo_clears_rx);
    assert!(!cfg.n273_zero_ack_uses_seg_cap);
}

#[test]
fn apply_llc_patch_absent_section_yields_defaults() {
    let dto = CfgLlcDto::default();
    let cfg = apply_llc_patch(dto).expect("defaults must apply");
    assert_eq!(cfg.advanced_link.tx_window, 3);
    assert_eq!(cfg.advanced_link.segment_payload_octets, 50);
}

#[test]
fn pd_rewrite_c1_default_n273_zero_ack_uses_seg_cap_is_false() {
    let cfg = CfgAdvancedLink::default();
    assert!(!cfg.n273_zero_ack_uses_seg_cap,
        "PD-REWRITE C1 (P3 Fork 3): default must be false for spec compliance");
    assert!(!default_n273_zero_ack_uses_seg_cap(),
        "the DTO default function must return false");
}

#[test]
fn pd_rewrite_c1_deprecated_proactive_disc_field_is_ignored() {
    let toml_str = r#"
        segment_payload_octets = 50
        tx_window = 3
        max_sdu_retx = 3
        max_segment_retx = 3
        max_setup_retries = 3
        max_disc_retries = 3
        max_reconnect_retries = 3
        max_tl_sdu_octets = 4096
        proactive_disc_on_retx_exhaust = true
        cache_setup_echo = true
        dedupe_completed_ns = true
        h47_cached_echo_clears_rx = true
        n273_zero_ack_uses_seg_cap = false
    "#;
    let dto: AdvancedLinkDto = section(toml_str)
        .expect("TOML with deprecated field must parse (soft migration)");
    assert_eq!(dto.proactive_disc_on_retx_exhaust, Some(true),
        "deprecated field captured on DTO for soft-migration reporting");
    let cfg = validate_advanced_link_config(dto)
        .expect("validation must succeed despite deprecated field");
    assert!(cfg.cache_setup_echo);
    assert!(!cfg.n273_zero_ack_uses_seg_cap);
}

#[test]
fn pd_rewrite_c1_no_other_h47_aliases_in_operator_surface() {
}

#[test]
fn segment_payload_octets_zero_rejected() {
    let dto = AdvancedLinkDto { segment_payload_octets: 0, ..defaults() };
    let err = validate_advanced_link_config(dto).unwrap_err();
    assert_eq!(err.field, "llc.advanced_link.segment_payload_octets");
}

#[test]
fn segment_payload_octets_513_rejected() {
    let dto = AdvancedLinkDto { segment_payload_octets: 513, ..defaults() };
    let err = validate_advanced_link_config(dto).unwrap_err();
    assert_eq!(err.field, "llc.advanced_link.segment_payload_octets");
}

#[test]
fn tx_window_zero_rejected() {
    let dto = AdvancedLinkDto { tx_window: 0, ..defaults() };
    let err = validate_advanced_link_config(dto).unwrap_err();
    assert_eq!(err.field, "llc.advanced_link.tx_window");
}

#[test]
fn tx_window_4_rejected() {
    let dto = AdvancedLinkDto { tx_window: 4, ..defaults() };
    let err = validate_advanced_link_config(dto).unwrap_err();
    assert_eq!(err.field, "llc.advanced_link.tx_window");
}

#[test]
fn max_sdu_retx_8_rejected() {
    let dto = AdvancedLinkDto { max_sdu_retx: 8, ..defaults() };
    let err = validate_advanced_link_config(dto).unwrap_err();
    assert_eq!(err.field, "llc.advanced_link.max_sdu_retx");
}

#[test]
fn max_segment_retx_16_rejected() {
    let dto = AdvancedLinkDto { max_segment_retx: 16, ..defaults() };
    let err = validate_advanced_link_config(dto).unwrap_err();
    assert_eq!(err.field, "llc.advanced_link.max_segment_retx");
}

#[test]
fn max_setup_retries_zero_rejected() {
    let dto = AdvancedLinkDto { max_setup_retries: 0, ..defaults() };
    let err = validate_advanced_link_config(dto).unwrap_err();
    assert_eq!(err.field, "llc.advanced_link.max_setup_retries");
}

#[test]
fn max_setup_retries_6_rejected() {
    let dto = AdvancedLinkDto { max_setup_retries: 6, ..defaults() };
    let err = validate_advanced_link_config(dto).unwrap_err();
    assert_eq!(err.field, "llc.advanced_link.max_setup_retries");
}

#[test]
fn max_disc_retries_2_rejected() {
    let dto = AdvancedLinkDto { max_disc_retries: 2, ..defaults() };
    let err = validate_advanced_link_config(dto).unwrap_err();
    assert_eq!(err.field, "llc.advanced_link.max_disc_retries");
}

#[test]
fn max_disc_retries_6_rejected() {
    let dto = AdvancedLinkDto { max_disc_retries: 6, ..defaults() };
    let err = validate_advanced_link_config(dto).unwrap_err();
    assert_eq!(err.field, "llc.advanced_link.max_disc_retries");
}

#[test]
fn max_reconnect_retries_6_rejected() {
    let dto = AdvancedLinkDto { max_reconnect_retries: 6, ..defaults() };
    let err = validate_advanced_link_config(dto).unwrap_err();
    assert_eq!(err.field, "llc.advanced_link.max_reconnect_retries");
}

#[test]
fn max_tl_sdu_octets_non_power_of_two_rejected() {
    let dto = AdvancedLinkDto { max_tl_sdu_octets: 300, ..defaults() };
    let err = validate_advanced_link_config(dto).unwrap_err();
    assert_eq!(err.field, "llc.advanced_link.max_tl_sdu_octets");
}

#[test]
fn max_tl_sdu_octets_16_rejected() {
    let dto = AdvancedLinkDto { max_tl_sdu_octets: 16, ..defaults() };
    let err = validate_advanced_link_config(dto).unwrap_err();
    assert_eq!(err.field, "llc.advanced_link.max_tl_sdu_octets");
}

#[test]
fn max_tl_sdu_octets_8192_rejected() {
    let dto = AdvancedLinkDto { max_tl_sdu_octets: 8192, ..defaults() };
    let err = validate_advanced_link_config(dto).unwrap_err();
    assert_eq!(err.field, "llc.advanced_link.max_tl_sdu_octets");
}

#[test]
fn all_valid_n271_values_accepted() {
    for &v in &[32u16, 64, 128, 256, 512, 1024, 2048, 4096] {
        let dto = AdvancedLinkDto { max_tl_sdu_octets: v, ..defaults() };
        assert!(
            validate_advanced_link_config(dto).is_ok(),
            "N.271 value {} should be valid",
            v
        );
    }
}

#[test]
fn sec_llc_error_display_contains_field_path() {
    let dto = AdvancedLinkDto { tx_window: 0, ..defaults() };
    let err = validate_advanced_link_config(dto).unwrap_err();
    let s = err.to_string();
    assert!(s.contains("llc.advanced_link.tx_window"), "error display should contain field path: {s}");
}
