use tetra_pd::ipv4::Ipv4Addr;
use tetra_pd::sec_packet_data::{
    apply_packet_data_patch, mtu_to_code, validate_packet_data_config, PacketDataDto,
    PacketDataPdchDto, StaticLeaseDto,
};

fn address(value: &toml::Value) -> Ipv4Addr {
    let octets: Vec<u8> =
        value.as_str().unwrap().split('.').map(|o| o.parse().unwrap()).collect();
    Ipv4Addr::new(octets[0], octets[1], octets[2], octets[3])
}

fn number(table: &toml::Table, key: &str) -> Option<i64> {
    table.get(key).map(|v| v.as_integer().unwrap())
}

fn flag(table: &toml::Table, key: &str) -> Option<bool> {
    table.get(key).map(|v| v.as_bool().unwrap())
}

fn pdch_from(table: &toml::Table) -> PacketDataPdchDto {
    let d = PacketDataPdchDto::default();
    PacketDataPdchDto {
        idle_release_frames: number(table, "idle_release_frames")
            .map_or(d.idle_release_frames, |n| n as u32),
        multi_slot: flag(table, "multi_slot").unwrap_or(d.multi_slot),
        channel_width: number(table, "channel_width").map_or(d.channel_width, |n| n as u8),
        dl_max_slots_per_frame: number(table, "dl_max_slots_per_frame")
            .map_or(d.dl_max_slots_per_frame, |n| n as u8),
        require_ms_capability: flag(table, "require_ms_capability")
            .unwrap_or(d.require_ms_capability),
    }
}

/// Reads a `[packet_data.pdch]` section.
fn pdch_section(text: &str) -> Result<PacketDataPdchDto, toml::de::Error> {
    let table: toml::Table = text.parse()?;
    Ok(pdch_from(&table))
}

/// Reads a `[packet_data]` section.
fn section(text: &str) -> Result<PacketDataDto, toml::de::Error> {
    let table: toml::Table = text.parse()?;
    let mut dto = defaults();
    if let Some(b) = flag(&table, "enabled") {
        dto.enabled = b;
    }
    if let Some(v) = table.get("ipv4_pool_base") {
        dto.ipv4_pool_base = address(v);
    }
    if let Some(n) = number(&table, "ipv4_pool_prefix") {
        dto.ipv4_pool_prefix = n as u8;
    }
    if let Some(v) = table.get("tun_name") {
        dto.tun_name = v.as_str().unwrap().to_owned();
    }
    if let Some(v) = table.get("tun_addr") {
        dto.tun_addr = address(v);
    }
    if let Some(n) = number(&table, "mtu") {
        dto.mtu = n as u16;
    }
    if let Some(list) = table.get("static_lease") {
        for entry in list.as_array().unwrap() {
            let lease = entry.as_table().unwrap();
            dto.static_lease.push(StaticLeaseDto {
                issi: number(lease, "issi").unwrap() as u32,
                ipv4: address(&lease["ipv4"]),
            });
        }
    }
    if let Some(v) = table.get("timers") {
        let timers = v.as_table().unwrap();
        if let Some(n) = number(timers, "ready_timer") {
            dto.timers.ready_timer = n as u8;
        }
        if let Some(n) = number(timers, "standby_timer") {
            dto.timers.standby_timer = n as u8;
        }
        if let Some(n) = number(timers, "resp_wait_timer") {
            dto.timers.resp_wait_timer = n as u8;
        }
        if let Some(n) = number(timers, "pdu_priority_max") {
            dto.timers.pdu_priority_max = n as u8;
        }
    }
    if let Some(v) = table.get("pdch") {
        dto.pdch = pdch_from(v.as_table().unwrap());
    }
    Ok(dto)
}

fn defaults() -> PacketDataDto {
    PacketDataDto::default()
}

#[test]
fn sec_packet_data_valid_defaults_accepted() {
    let cfg = validate_packet_data_config(defaults()).expect("defaults must be valid");
    assert!(!cfg.enabled);
    assert_eq!(cfg.ipv4_pool_base, Ipv4Addr::new(192, 168, 100, 0));
    assert_eq!(cfg.ipv4_pool_prefix, 24);
    assert_eq!(cfg.tun_addr, Ipv4Addr::new(192, 168, 100, 1));
    assert_eq!(cfg.mtu, 1500);
    assert!(cfg.static_lease.is_empty());
    assert_eq!(cfg.timers.ready_timer, 8);
    assert_eq!(cfg.timers.standby_timer, 5);
    assert_eq!(cfg.timers.resp_wait_timer, 8);
    assert_eq!(cfg.timers.pdu_priority_max, 4);
    assert_eq!(cfg.pdch.idle_release_frames, 300);
    assert!(!cfg.pdch.multi_slot);
    assert_eq!(cfg.pdch.channel_width, 0);
}

#[test]
fn apply_patch_absent_section_yields_defaults() {
    let cfg = apply_packet_data_patch(None).expect("None must yield defaults");
    assert_eq!(cfg.ipv4_pool_prefix, 24);
    assert_eq!(cfg.tun_addr, Ipv4Addr::new(192, 168, 100, 1));
    assert!(!cfg.enabled);
}

#[test]
fn sec_packet_data_full_toml_section_parses_and_validates() {
    let toml_str = r#"
        enabled = true
        ipv4_pool_base = "10.10.0.0"
        ipv4_pool_prefix = 24
        tun_name = "pd0"
        tun_addr = "10.10.0.1"
        mtu = 1500

        [[static_lease]]
        issi = 1234
        ipv4 = "10.10.0.10"

        [timers]
        ready_timer = 5
        standby_timer = 3
        resp_wait_timer = 4
        pdu_priority_max = 2

        [pdch]
        idle_release_frames = 36
        multi_slot = false
        channel_width = 0
    "#;
    let dto: PacketDataDto = section(toml_str).expect("TOML must parse");
    let cfg = validate_packet_data_config(dto).expect("must validate");
    assert!(cfg.enabled);
    assert_eq!(cfg.ipv4_pool_base, Ipv4Addr::new(10, 10, 0, 0));
    assert_eq!(cfg.tun_addr, Ipv4Addr::new(10, 10, 0, 1));
    assert_eq!(cfg.static_lease.len(), 1);
    assert_eq!(cfg.static_lease[0].issi, 1234);
    assert_eq!(cfg.static_lease[0].ipv4, Ipv4Addr::new(10, 10, 0, 10));
    assert_eq!(cfg.timers.ready_timer, 5);
    assert_eq!(cfg.pdch.idle_release_frames, 36);
}

#[test]
fn mtu_to_code_1500_is_4() {
    assert_eq!(mtu_to_code(1500), Some(4));
}

#[test]
fn mtu_to_code_invalid_returns_none() {
    assert_eq!(mtu_to_code(1499), None);
    assert_eq!(mtu_to_code(0), None);
}

#[test]
fn pool_prefix_23_rejected() {
    let dto = PacketDataDto { ipv4_pool_prefix: 23, ..defaults() };
    let err = validate_packet_data_config(dto).unwrap_err();
    assert_eq!(err.field, "packet_data.ipv4_pool_prefix");
}

#[test]
fn pool_prefix_31_rejected() {
    let dto = PacketDataDto { ipv4_pool_prefix: 31, ..defaults() };
    let err = validate_packet_data_config(dto).unwrap_err();
    assert_eq!(err.field, "packet_data.ipv4_pool_prefix");
}

#[test]
fn pool_prefix_30_accepted() {
    let dto = PacketDataDto {
        ipv4_pool_base: Ipv4Addr::new(10, 0, 0, 0),
        ipv4_pool_prefix: 30,
        tun_addr: Ipv4Addr::new(10, 0, 0, 1),
        ..defaults()
    };
    assert!(validate_packet_data_config(dto).is_ok());
}

#[test]
fn pool_base_misaligned_rejected() {
    let dto = PacketDataDto {
        ipv4_pool_base: Ipv4Addr::new(192, 168, 100, 1),
        ipv4_pool_prefix: 24,
        ..defaults()
    };
    let err = validate_packet_data_config(dto).unwrap_err();
    assert_eq!(err.field, "packet_data.ipv4_pool_base");
}

#[test]
fn tun_addr_outside_pool_rejected() {
    let dto = PacketDataDto {
        tun_addr: Ipv4Addr::new(10, 0, 0, 1),
        ..defaults()
    };
    let err = validate_packet_data_config(dto).unwrap_err();
    assert_eq!(err.field, "packet_data.tun_addr");
}

#[test]
fn tun_addr_at_broadcast_rejected() {
    let dto = PacketDataDto {
        tun_addr: Ipv4Addr::new(192, 168, 100, 255),
        ..defaults()
    };
    let err = validate_packet_data_config(dto).unwrap_err();
    assert_eq!(err.field, "packet_data.tun_addr");
}

#[test]
fn invalid_mtu_rejected() {
    let dto = PacketDataDto { mtu: 1234, ..defaults() };
    let err = validate_packet_data_config(dto).unwrap_err();
    assert_eq!(err.field, "packet_data.mtu");
    assert!(err.message.contains("table 28.79"), "expected table reference in: {}", err.message);
}

#[test]
fn static_lease_outside_pool_rejected() {
    let dto = PacketDataDto {
        static_lease: vec![StaticLeaseDto {
            issi: 999,
            ipv4: Ipv4Addr::new(10, 0, 0, 5),
        }],
        ..defaults()
    };
    let err = validate_packet_data_config(dto).unwrap_err();
    assert_eq!(err.field, "packet_data.static_lease[].ipv4");
}

#[test]
fn static_lease_duplicates_tun_addr_rejected() {
    let dto = PacketDataDto {
        tun_addr: Ipv4Addr::new(192, 168, 100, 1),
        static_lease: vec![StaticLeaseDto {
            issi: 111,
            ipv4: Ipv4Addr::new(192, 168, 100, 1),
        }],
        ..defaults()
    };
    let err = validate_packet_data_config(dto).unwrap_err();
    assert_eq!(err.field, "packet_data.static_lease[].ipv4");
}

#[test]
fn static_leases_duplicate_ip_rejected() {
    let dto = PacketDataDto {
        static_lease: vec![
            StaticLeaseDto { issi: 1, ipv4: Ipv4Addr::new(192, 168, 100, 10) },
            StaticLeaseDto { issi: 2, ipv4: Ipv4Addr::new(192, 168, 100, 10) },
        ],
        ..defaults()
    };
    let err = validate_packet_data_config(dto).unwrap_err();
    assert_eq!(err.field, "packet_data.static_lease[].ipv4");
}

#[test]
fn static_leases_duplicate_issi_rejected() {
    let dto = PacketDataDto {
        static_lease: vec![
            StaticLeaseDto { issi: 42, ipv4: Ipv4Addr::new(192, 168, 100, 10) },
            StaticLeaseDto { issi: 42, ipv4: Ipv4Addr::new(192, 168, 100, 11) },
        ],
        ..defaults()
    };
    let err = validate_packet_data_config(dto).unwrap_err();
    assert_eq!(err.field, "packet_data.static_lease[].issi");
}

#[test]
fn invalid_ready_timer_rejected() {
    let mut dto = defaults();
    dto.timers.ready_timer = 16;
    let err = validate_packet_data_config(dto).unwrap_err();
    assert_eq!(err.field, "packet_data.timers.ready_timer");
}

#[test]
fn invalid_standby_timer_rejected() {
    let mut dto = defaults();
    dto.timers.standby_timer = 16;
    let err = validate_packet_data_config(dto).unwrap_err();
    assert_eq!(err.field, "packet_data.timers.standby_timer");
}

#[test]
fn invalid_resp_wait_timer_rejected() {
    let mut dto = defaults();
    dto.timers.resp_wait_timer = 16;
    let err = validate_packet_data_config(dto).unwrap_err();
    assert_eq!(err.field, "packet_data.timers.resp_wait_timer");
}

#[test]
fn invalid_pdu_priority_max_rejected() {
    let mut dto = defaults();
    dto.timers.pdu_priority_max = 8;
    let err = validate_packet_data_config(dto).unwrap_err();
    assert_eq!(err.field, "packet_data.timers.pdu_priority_max");
}

#[test]
fn invalid_idle_release_frames_zero_rejected() {
    let mut dto = defaults();
    dto.pdch.idle_release_frames = 0;
    let err = validate_packet_data_config(dto).unwrap_err();
    assert_eq!(err.field, "packet_data.pdch.idle_release_frames");
}

#[test]
fn invalid_idle_release_frames_over_max_rejected() {
    let mut dto = defaults();
    dto.pdch.idle_release_frames = 1025;
    let err = validate_packet_data_config(dto).unwrap_err();
    assert_eq!(err.field, "packet_data.pdch.idle_release_frames");
}

#[test]
fn invalid_channel_width_rejected() {
    let mut dto = defaults();
    dto.pdch.channel_width = 4;
    let err = validate_packet_data_config(dto).unwrap_err();
    assert_eq!(err.field, "packet_data.pdch.channel_width");
}

#[test]
fn sec_packet_data_error_display_contains_field_path() {
    let mut dto = defaults();
    dto.pdch.channel_width = 4;
    let err = validate_packet_data_config(dto).unwrap_err();
    let s = err.to_string();
    assert!(s.contains("packet_data.pdch.channel_width"), "error display should contain field path: {s}");
}

#[test]
fn pdch_h52_defaults_accepted() {
    let cfg = validate_packet_data_config(defaults()).expect("defaults must be valid");
    assert_eq!(cfg.pdch.dl_max_slots_per_frame, 1);
    assert!(cfg.pdch.require_ms_capability);
}

#[test]
fn pdch_h52_roundtrip_via_toml() {
    let toml_str = r#"
        idle_release_frames = 100
        multi_slot = true
        channel_width = 0
        dl_max_slots_per_frame = 2
        require_ms_capability = false
    "#;
    let dto: PacketDataPdchDto = pdch_section(toml_str).expect("TOML must parse");
    assert_eq!(dto.dl_max_slots_per_frame, 2);
    assert!(!dto.require_ms_capability);
    let full = PacketDataDto { pdch: dto, ..defaults() };
    let cfg = validate_packet_data_config(full).expect("must validate");
    assert_eq!(cfg.pdch.dl_max_slots_per_frame, 2);
    assert!(!cfg.pdch.require_ms_capability);
    assert!(cfg.pdch.multi_slot);
}

#[test]
fn pdch_h52_dl_max_slots_zero_rejected() {
    let mut dto = defaults();
    dto.pdch.dl_max_slots_per_frame = 0;
    let err = validate_packet_data_config(dto).unwrap_err();
    assert_eq!(err.field, "packet_data.pdch.dl_max_slots_per_frame");
    assert!(err.message.contains("1..=3"), "expected range in: {}", err.message);
}

#[test]
fn pdch_h52_dl_max_slots_four_rejected() {
    let mut dto = defaults();
    dto.pdch.dl_max_slots_per_frame = 4;
    let err = validate_packet_data_config(dto).unwrap_err();
    assert_eq!(err.field, "packet_data.pdch.dl_max_slots_per_frame");
}

#[test]
fn pdch_h52_dl_max_slots_three_accepted() {
    let mut dto = defaults();
    dto.pdch.dl_max_slots_per_frame = 3;
    assert!(validate_packet_data_config(dto).is_ok());
}

#[test]
fn misaligned_base_message_names_nearest_network() {
    let dto = PacketDataDto {
        ipv4_pool_base: Ipv4Addr::new(192, 168, 100, 77),
        ipv4_pool_prefix: 26,
        ..defaults()
    };
    let err = validate_packet_data_config(dto).unwrap_err();
    assert_eq!(
        err.message,
        "must be network-aligned for prefix /26 (base & mask == base); got 192.168.100.77, \
         nearest aligned address is 192.168.100.64"
    );
}

#[test]
fn tun_messages_are_exact() {
    let outside = PacketDataDto { tun_addr: Ipv4Addr::new(10, 0, 0, 1), ..defaults() };
    let err = validate_packet_data_config(outside).unwrap_err();
    assert_eq!(
        err.message,
        "must lie inside pool subnet 192.168.100.0/24, got 10.0.0.1"
    );
    let broadcast = PacketDataDto { tun_addr: Ipv4Addr::new(192, 168, 100, 255), ..defaults() };
    let err = validate_packet_data_config(broadcast).unwrap_err();
    assert_eq!(
        err.message,
        "must not be the broadcast address 192.168.100.255 of the pool subnet"
    );
}

#[test]
fn lease_messages_name_the_entry() {
    let lease = |issi: u32, last: u8| StaticLeaseDto {
        issi,
        ipv4: Ipv4Addr::new(192, 168, 100, last),
    };
    let dto = PacketDataDto {
        static_lease: vec![lease(1, 10), StaticLeaseDto { issi: 2, ipv4: Ipv4Addr::new(10, 0, 0, 5) }],
        ..defaults()
    };
    assert_eq!(
        validate_packet_data_config(dto).unwrap_err().message,
        "static_lease[1]: IP 10.0.0.5 is outside pool subnet 192.168.100.0/24"
    );
    let dto = PacketDataDto { static_lease: vec![lease(1, 10), lease(2, 10)], ..defaults() };
    assert_eq!(
        validate_packet_data_config(dto).unwrap_err().message,
        "static_lease[1]: IP 192.168.100.10 collides with tun_addr or another static lease"
    );
    let dto = PacketDataDto { static_lease: vec![lease(42, 10), lease(42, 11)], ..defaults() };
    assert_eq!(
        validate_packet_data_config(dto).unwrap_err().message,
        "static_lease[1]: ISSI 42 appears more than once in static_lease"
    );
}

#[test]
fn mtu_message_lists_the_values() {
    let dto = PacketDataDto { mtu: 1234, ..defaults() };
    let err = validate_packet_data_config(dto).unwrap_err();
    assert_eq!(
        err.message,
        format!(
            "must be one of {:?} (ETSI TS 100 392-2 table 28.79), got {}",
            tetra_pd::sec_packet_data::VALID_MTU_VALUES,
            1234
        )
    );
    assert_eq!(err.to_string(), format!("packet_data.mtu: {}", err.message));
}

#[test]
fn every_mtu_value_has_its_place_as_code() {
    for (i, v) in [256u16, 512, 1024, 1280, 1500, 2048, 4096].iter().enumerate() {
        assert_eq!(mtu_to_code(*v), Some(i as u8));
    }
}

#[test]
fn first_fault_is_reported() {
    let mut dto = defaults();
    dto.mtu = 1;
    dto.timers.ready_timer = 16;
    dto.pdch.channel_width = 9;
    assert_eq!(validate_packet_data_config(dto).unwrap_err().field, "packet_data.mtu");
}
