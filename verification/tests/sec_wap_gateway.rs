use tetra_pd::ipv4::Ipv4Addr;
use tetra_pd::sec_wap_gateway::{
    apply_wap_gateway_patch, CfgWapGateway, CfgWapGatewayDto, CfgWapGatewayPortalDto,
    DEFAULT_WAP_LISTEN_PORT, DEFAULT_WAP_LOG_LEVEL, DEFAULT_WAP_PORTAL_METAR_REFRESH_SECONDS,
    DEFAULT_WAP_PORTAL_PATH_PREFIX, DEFAULT_WAP_PORTAL_RADIOS_MAX, DEFAULT_WAP_UPSTREAM_URL,
};

fn text(value: &toml::Value) -> String {
    value.as_str().unwrap().to_owned()
}

fn portal_from(table: &toml::Table) -> CfgWapGatewayPortalDto {
    let mut dto = CfgWapGatewayPortalDto::default();
    for (key, value) in table {
        match key.as_str() {
            "enabled" => dto.enabled = value.as_bool().unwrap(),
            "path_prefix" => dto.path_prefix = text(value),
            "metar_icao" => dto.metar_icao = text(value),
            "metar_refresh_seconds" => {
                dto.metar_refresh_seconds = value.as_integer().unwrap() as u32
            }
            "radios_max" => dto.radios_max = value.as_integer().unwrap() as u8,
            other => dto.extra.push(other.to_owned()),
        }
    }
    dto
}

/// Reads a `[wap_gateway]` section.
fn section(source: &str) -> CfgWapGatewayDto {
    let table: toml::Table = source.parse().unwrap();
    let mut dto = CfgWapGatewayDto::default();
    for (key, value) in &table {
        match key.as_str() {
            "enabled" => dto.enabled = value.as_bool().unwrap(),
            "listen_port" => dto.listen_port = value.as_integer().unwrap() as u16,
            "upstream_url" => dto.upstream_url = text(value),
            "log_level" => dto.log_level = text(value),
            "portal" => dto.portal = Some(portal_from(value.as_table().unwrap())),
            other => dto.extra.push(other.to_owned()),
        }
    }
    dto
}

const TUN: Ipv4Addr = Ipv4Addr { bits: 0x0ade_0001 };

#[test]
fn defaults_disabled() {
    let cfg = apply_wap_gateway_patch(CfgWapGatewayDto::default(), TUN).unwrap();
    assert!(!cfg.enabled);
    assert_eq!(cfg.listen_addr, TUN);
    assert_eq!(cfg.listen_port, DEFAULT_WAP_LISTEN_PORT);
    assert_eq!(cfg.upstream_url, DEFAULT_WAP_UPSTREAM_URL);
    assert_eq!(cfg.log_level, DEFAULT_WAP_LOG_LEVEL);
}

#[test]
fn listen_addr_defaults_to_tun_addr() {
    let dto = CfgWapGatewayDto {
        enabled: true,
        ..Default::default()
    };
    let cfg = apply_wap_gateway_patch(dto, TUN).unwrap();
    assert_eq!(cfg.listen_addr, TUN);
    assert!(cfg.enabled);
}

#[test]
fn listen_addr_override_wins() {
    let dto = CfgWapGatewayDto {
        enabled: true,
        listen_addr: Some(Ipv4Addr::new(127, 0, 0, 1)),
        ..Default::default()
    };
    let cfg = apply_wap_gateway_patch(dto, TUN).unwrap();
    assert_eq!(cfg.listen_addr, Ipv4Addr::new(127, 0, 0, 1));
}

#[test]
fn zero_listen_port_rejected() {
    let dto = CfgWapGatewayDto {
        listen_port: 0,
        ..Default::default()
    };
    let err = apply_wap_gateway_patch(dto, TUN).unwrap_err();
    assert_eq!(err.field, "wap_gateway.listen_port");
}

#[test]
fn empty_upstream_url_rejected() {
    let dto = CfgWapGatewayDto {
        upstream_url: "".into(),
        ..Default::default()
    };
    let err = apply_wap_gateway_patch(dto, TUN).unwrap_err();
    assert_eq!(err.field, "wap_gateway.upstream_url");
}

#[test]
fn non_http_upstream_url_rejected() {
    let dto = CfgWapGatewayDto {
        upstream_url: "ftp://x".into(),
        ..Default::default()
    };
    let err = apply_wap_gateway_patch(dto, TUN).unwrap_err();
    assert_eq!(err.field, "wap_gateway.upstream_url");
}

#[test]
fn https_upstream_url_accepted() {
    let dto = CfgWapGatewayDto {
        upstream_url: "https://backend.example/".into(),
        ..Default::default()
    };
    let cfg = apply_wap_gateway_patch(dto, TUN).unwrap();
    assert_eq!(cfg.upstream_url, "https://backend.example/");
}

#[test]
fn full_toml_section_parses() {
    let toml_str = r#"
        enabled = true
        listen_port = 9201
        upstream_url = "http://127.0.0.1:8081"
        log_level = "debug"
    "#;
    let dto: CfgWapGatewayDto = section(toml_str);
    assert!(dto.extra.is_empty());
    let cfg = apply_wap_gateway_patch(dto, TUN).unwrap();
    assert!(cfg.enabled);
    assert_eq!(cfg.log_level, "debug");
    assert_eq!(cfg.listen_addr, TUN);
}

#[test]
fn resolved_listen_addr_uses_explicit_when_set() {
    let mut cfg = CfgWapGateway::disabled(TUN);
    cfg.listen_addr = Ipv4Addr::new(127, 0, 0, 5);
    assert_eq!(cfg.resolved_listen_addr(TUN), Ipv4Addr::new(127, 0, 0, 5));
}

#[test]
fn resolved_listen_addr_falls_back_to_tun_when_unspecified() {
    let mut cfg = CfgWapGateway::disabled(TUN);
    cfg.listen_addr = Ipv4Addr::new(0, 0, 0, 0);
    assert_eq!(cfg.resolved_listen_addr(TUN), TUN);
}

#[test]
fn unknown_field_captured_in_extra() {
    let toml_str = r#"
        enabled = true
        typo_field = 42
    "#;
    let dto: CfgWapGatewayDto = section(toml_str);
    assert!(dto.extra.iter().any(|k| k == "typo_field"));
}

#[test]
fn portal_defaults_disabled() {
    let cfg = apply_wap_gateway_patch(CfgWapGatewayDto::default(), TUN).unwrap();
    assert!(!cfg.portal.enabled);
    assert_eq!(cfg.portal.path_prefix, DEFAULT_WAP_PORTAL_PATH_PREFIX);
    assert!(cfg.portal.metar_icao.is_empty());
    assert_eq!(cfg.portal.metar_refresh_seconds, DEFAULT_WAP_PORTAL_METAR_REFRESH_SECONDS);
    assert_eq!(cfg.portal.radios_max, DEFAULT_WAP_PORTAL_RADIOS_MAX);
}

#[test]
fn portal_full_toml_parses() {
    let toml_str = r#"
        enabled = true
        upstream_url = "http://127.0.0.1:8081"
        [portal]
        enabled = true
        path_prefix = "/wap"
        metar_icao = "lrop"
        metar_refresh_seconds = 900
        radios_max = 3
    "#;
    let dto: CfgWapGatewayDto = section(toml_str);
    assert!(dto.extra.is_empty());
    let cfg = apply_wap_gateway_patch(dto, TUN).unwrap();
    assert!(cfg.portal.enabled);
    assert_eq!(cfg.portal.path_prefix, "/wap");
    assert_eq!(cfg.portal.metar_icao, "LROP");
    assert_eq!(cfg.portal.metar_refresh_seconds, 900);
    assert_eq!(cfg.portal.radios_max, 3);
}

#[test]
fn portal_path_prefix_must_start_with_slash() {
    let dto = CfgWapGatewayDto {
        portal: Some(CfgWapGatewayPortalDto {
            path_prefix: "portal".into(),
            ..Default::default()
        }),
        ..Default::default()
    };
    let err = apply_wap_gateway_patch(dto, TUN).unwrap_err();
    assert_eq!(err.field, "wap_gateway.portal.path_prefix");
}

#[test]
fn portal_empty_path_prefix_rejected() {
    let dto = CfgWapGatewayDto {
        portal: Some(CfgWapGatewayPortalDto {
            path_prefix: "   ".into(),
            ..Default::default()
        }),
        ..Default::default()
    };
    let err = apply_wap_gateway_patch(dto, TUN).unwrap_err();
    assert_eq!(err.field, "wap_gateway.portal.path_prefix");
}

#[test]
fn portal_metar_icao_must_be_alphanumeric() {
    let dto = CfgWapGatewayDto {
        portal: Some(CfgWapGatewayPortalDto {
            metar_icao: "LR-OP".into(),
            ..Default::default()
        }),
        ..Default::default()
    };
    let err = apply_wap_gateway_patch(dto, TUN).unwrap_err();
    assert_eq!(err.field, "wap_gateway.portal.metar_icao");
}

#[test]
fn portal_zero_refresh_rejected() {
    let dto = CfgWapGatewayDto {
        portal: Some(CfgWapGatewayPortalDto {
            metar_refresh_seconds: 0,
            ..Default::default()
        }),
        ..Default::default()
    };
    let err = apply_wap_gateway_patch(dto, TUN).unwrap_err();
    assert_eq!(err.field, "wap_gateway.portal.metar_refresh_seconds");
}

#[test]
fn portal_zero_radios_max_rejected() {
    let dto = CfgWapGatewayDto {
        portal: Some(CfgWapGatewayPortalDto {
            radios_max: 0,
            ..Default::default()
        }),
        ..Default::default()
    };
    let err = apply_wap_gateway_patch(dto, TUN).unwrap_err();
    assert_eq!(err.field, "wap_gateway.portal.radios_max");
}

#[test]
fn portal_unknown_field_captured_in_extra() {
    let toml_str = r#"
        [portal]
        enabled = true
        typo = 1
    "#;
    let dto: CfgWapGatewayDto = section(toml_str);
    let portal = dto.portal.expect("portal parsed");
    assert!(portal.extra.iter().any(|k| k == "typo"));
}

fn portal_dto(path_prefix: &str, metar_icao: &str) -> CfgWapGatewayDto {
    CfgWapGatewayDto {
        portal: Some(CfgWapGatewayPortalDto {
            path_prefix: path_prefix.into(),
            metar_icao: metar_icao.into(),
            ..Default::default()
        }),
        ..Default::default()
    }
}

#[test]
fn messages_show_the_text_quoted() {
    let dto = CfgWapGatewayDto { upstream_url: "ftp://\"x\"\n".into(), ..Default::default() };
    let err = apply_wap_gateway_patch(dto, TUN).unwrap_err();
    assert_eq!(
        err.message,
        "must start with http:// or https://, got \"ftp://\\\"x\\\"\\n\""
    );
    let err = apply_wap_gateway_patch(portal_dto("  portal ", ""), TUN).unwrap_err();
    assert_eq!(err.message, "must start with '/', got \"portal\"");
    let err = apply_wap_gateway_patch(portal_dto("/p", " LR-OP"), TUN).unwrap_err();
    assert_eq!(err.message, "must be ASCII alphanumeric, got \" LR-OP\"");
}

#[test]
fn portal_texts_are_trimmed_and_uppercased() {
    let cfg = apply_wap_gateway_patch(portal_dto(" /p \u{a0}", "\tlr0p\n"), TUN).unwrap();
    assert_eq!(cfg.portal.path_prefix, "/p");
    assert_eq!(cfg.portal.metar_icao, "LR0P");
}

#[test]
fn non_ascii_station_rejected() {
    let err = apply_wap_gateway_patch(portal_dto("/p", "lr\u{f6}p"), TUN).unwrap_err();
    assert_eq!(err.field, "wap_gateway.portal.metar_icao");
}

#[test]
fn blank_log_level_rejected() {
    let dto = CfgWapGatewayDto { log_level: " \t".into(), ..Default::default() };
    let err = apply_wap_gateway_patch(dto, TUN).unwrap_err();
    assert_eq!(err.field, "wap_gateway.log_level");
    assert_eq!(err.message, "must be non-empty");
}

#[test]
fn own_settings_are_checked_before_the_portal() {
    let mut dto = portal_dto("", "");
    dto.listen_port = 0;
    let err = apply_wap_gateway_patch(dto, TUN).unwrap_err();
    assert_eq!(err.field, "wap_gateway.listen_port");
}
