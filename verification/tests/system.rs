use device_cfg::device::netif::InterfaceReadings;
use device_cfg::device::system::{
    board_time_text, cached_internet_ms, date_argument, display_seconds, duration_millis,
    formatted_time, ntp_request, ntp_target, ntp_time_from_response, parse_can_bitrate,
    unix_time_ms, SystemDiagnosticConfig, SystemDiagnosticService, TimeStatus,
    NTP_UNIX_EPOCH_OFFSET,
};

fn s(v: &str) -> String {
    v.to_string()
}

fn service(bitrate: Option<&str>) -> SystemDiagnosticService {
    SystemDiagnosticService::new(SystemDiagnosticConfig::from_env_values(
        None,
        None,
        bitrate.map(s),
        Some(s("ntp.example.org")),
        None,
        None,
    ))
}

fn readings() -> InterfaceReadings {
    InterfaceReadings {
        operstate: Some(s("up\n")),
        carrier: Some(s("0")),
        flags: None,
        address: None,
        rx_packets: Some(s("10")),
        tx_packets: Some(s("20")),
        rx_bytes: None,
        tx_bytes: None,
        rx_errors: Some(s("x")),
        tx_errors: Some(s("3")),
    }
}

#[test]
fn diagnostic_config_defaults_and_summary() {
    let svc = service(Some("500000"));
    assert_eq!(svc.canbusload_bin(), "canbusload");
    assert_eq!(svc.config().can_iface(), "can0");
    assert_eq!(svc.config().can_bitrate(), Some(500000));
    assert_eq!(svc.config().ntpd_bin(), "ntpd");
    assert_eq!(svc.config().reboot_bin(), "reboot");
    assert_eq!(
        svc.config_summary(),
        "诊断配置: can_iface=can0, canbusload_bin=canbusload, can_bitrate=Some(500000), ntp_server=ntp.example.org, ntpd_bin=ntpd, reboot_bin=reboot"
    );
    assert_eq!(service(Some("fast")).config().can_bitrate(), None);
    assert!(service(None).config_summary().contains("can_bitrate=None"));
}

#[test]
fn can_bitrate_from_ip_details() {
    let out = "4: can0: <NOARP,UP> mtu 16\n    can state ERROR-ACTIVE\n    bitrate 250000 sample-point 0.875\n";
    assert_eq!(parse_can_bitrate(out), Some(250000));
    assert_eq!(parse_can_bitrate("bitrate fast"), None);
    assert_eq!(parse_can_bitrate("bitrate"), None);
    assert_eq!(parse_can_bitrate("nothing here"), None);
}

#[test]
fn can_status_prefers_bittiming_then_ip_then_config() {
    let svc = service(Some("125000"));
    let st = svc.can_status(true, &readings(), &Some(s("500000\n")), Some("bitrate 250000"));
    assert_eq!(st.bitrate, Some(500000));
    assert_eq!(st.operstate, "up");
    assert!(st.up);
    assert_eq!(st.carrier, Some(false));
    assert_eq!(st.rx_packets, 10);
    assert_eq!(st.rx_errors, 0);
    assert_eq!(st.tx_errors, 3);
    let st = svc.can_status(true, &readings(), &None, Some("bitrate 250000"));
    assert_eq!(st.bitrate, Some(250000));
    let st = svc.can_status(true, &readings(), &None, None);
    assert_eq!(st.bitrate, Some(125000));
    let missing = svc.can_status(false, &readings(), &None, None);
    assert_eq!(missing.operstate, "missing");
    assert_eq!(missing.bitrate, None);
    assert_eq!(missing.rx_packets, 0);
    assert_eq!(missing.iface, "can0");
}

#[test]
fn ntp_request_packet() {
    let p = ntp_request();
    assert_eq!(p.len(), 48);
    assert_eq!(p[0], 0x23);
    assert!(p[1..].iter().all(|b| *b == 0));
}

#[test]
fn ntp_response_decoding() {
    let mut r = [0u8; 48];
    let secs: u32 = (NTP_UNIX_EPOCH_OFFSET + 1_700_000_000) as u32;
    r[40..44].copy_from_slice(&secs.to_be_bytes());
    r[44..48].copy_from_slice(&0x8000_0000u32.to_be_bytes());
    let (unix, nanos) = ntp_time_from_response(&r, 48).ok().unwrap();
    assert_eq!(unix, 1_700_000_000);
    assert_eq!(nanos, 500_000_000);
    assert_eq!(duration_millis(unix, nanos), 1_700_000_000_500);
    assert_eq!(ntp_time_from_response(&r, 47).unwrap_err().0, "NTP 响应长度无效");
    let zero = [0u8; 48];
    assert_eq!(ntp_time_from_response(&zero, 48).unwrap_err().0, "NTP 时间无效");
}

#[test]
fn cached_internet_time_moves_with_the_board() {
    assert_eq!(cached_internet_ms(Some(1000), 500, 800), Some(1300));
    assert_eq!(cached_internet_ms(Some(1000), 800, 500), Some(1000));
    assert_eq!(cached_internet_ms(Some(u128::MAX - 1), 0, 10), Some(u128::MAX));
    assert_eq!(cached_internet_ms(None, 0, 10), None);
    assert_eq!(display_seconds(1_700_000_000_999), 1_700_000_000);
    assert_eq!(display_seconds(u128::MAX), u64::MAX / 1000);
}

#[test]
fn time_texts() {
    assert_eq!(date_argument(1700000000), "@1700000000");
    assert_eq!(formatted_time(Some("2023-11-14 22:13:20 UTC\n"), 5), "2023-11-14 22:13:20 UTC");
    assert_eq!(formatted_time(None, 1700000000), "1700000000");
    assert_eq!(board_time_text(None), "-");
    assert_eq!(board_time_text(Some(" 2024 \n")), "2024");
    assert_eq!(ntp_target("pool.ntp.org"), "pool.ntp.org:123");
}

#[test]
fn time_status_after_a_query() {
    let svc = service(None);
    let ok = svc.time_status(s("now"), 5, Ok((7, s("then"))));
    assert!(ok.internet_connected);
    assert_eq!(ok.internet_unix_ms, Some(7));
    assert_eq!(ok.internet_time.as_deref(), Some("then"));
    assert_eq!(ok.ntp_server, "ntp.example.org");
    assert!(ok.error.is_none());
    let err = svc.time_status(s("now"), 5, Err(s("NTP 响应超时")));
    assert!(!err.internet_connected);
    assert!(err.internet_unix_ms.is_none());
    assert_eq!(err.error.as_deref(), Some("NTP 响应超时"));
}

#[test]
fn time_status_from_cache() {
    let svc = service(None);
    let none = svc.time_status_from_cached(None, s("b"), 10, None);
    assert_eq!(none.error.as_deref(), Some("正在检测互联网时间源"));
    assert!(!none.internet_connected);
    assert_eq!(none.ntp_server, "ntp.example.org");
    let cached = TimeStatus {
        board_time: s("old"),
        board_unix_ms: 1000,
        internet_time: Some(s("old text")),
        internet_unix_ms: Some(5000),
        internet_connected: true,
        ntp_server: s("cached.server"),
        error: None,
    };
    let st = svc.time_status_from_cached(Some(&cached), s("new"), 3000, Some(s("new text")));
    assert_eq!(st.internet_unix_ms, Some(7000));
    assert_eq!(st.internet_time.as_deref(), Some("new text"));
    assert_eq!(st.ntp_server, "cached.server");
    assert!(st.internet_connected);
    assert_eq!(st.board_time, "new");
    let offline = TimeStatus {
        board_time: s("old"),
        board_unix_ms: 1000,
        internet_time: Some(s("kept")),
        internet_unix_ms: None,
        internet_connected: false,
        ntp_server: s("x"),
        error: Some(s("err")),
    };
    let st = svc.time_status_from_cached(Some(&offline), s("new"), 3000, None);
    assert_eq!(st.internet_time.as_deref(), Some("kept"));
    assert_eq!(st.error.as_deref(), Some("err"));
}

#[test]
fn sync_and_reboot_results() {
    let svc = service(None);
    let ok = svc.sync_result(true, "step time\n", "").ok().unwrap();
    assert!(ok.synced);
    assert_eq!(ok.output, "step time");
    assert_eq!(svc.sync_result(false, "", " no server\n").err().unwrap().0, "ntpd 同步失败: no server");
    let r = svc.reboot_result();
    assert!(r.scheduled);
    assert_eq!(r.delay_seconds, 1);
}

#[test]
fn unix_time_of_known_instants() {
    let t = std::time::UNIX_EPOCH + std::time::Duration::from_millis(1_234_567);
    assert_eq!(unix_time_ms(t), Some(1_234_567));
    let before = std::time::UNIX_EPOCH - std::time::Duration::from_secs(1);
    assert_eq!(unix_time_ms(before), None);
}
