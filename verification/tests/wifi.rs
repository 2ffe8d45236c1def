use device_cfg::device::wifi::{
    connection_diagnostics, decode_wpa_ssid, ensure_wpa_ok, has_scan_data, networks_to_remove,
    parse_ip_address, parse_scan_results, parse_status, wpa_command_result, ConnectAction,
    ConnectEvent, ConnectPhase, ConnectSession, ScanAction, ScanEvent, ScanSession, WifiConfig,
    WifiError, WifiService,
};

fn s(v: &str) -> String {
    v.to_string()
}

fn run_args(a: &ConnectAction) -> Vec<String> {
    match a {
        ConnectAction::RunWpa(args) => args.clone(),
        _ => panic!("expected a wpa_cli command"),
    }
}

#[test]
fn wifi_config_defaults() {
    let c = WifiConfig::from_env_values(None, None);
    assert_eq!(c.ctrl_dir(), "/var/run/wpa_supplicant");
    assert_eq!(c.iface(), "wlan0");
    let svc = WifiService::new(WifiConfig::from_env_values(Some(s("/run/wpa")), Some(s("wlan1"))));
    assert_eq!(svc.config_summary(), "WiFi 配置: ctrl_dir=/run/wpa, iface=wlan1");
}

#[test]
fn wpa_ok_and_failures() {
    assert!(ensure_wpa_ok(" OK\n", "启动扫描").is_ok());
    assert_eq!(ensure_wpa_ok("FAIL\n", "启动扫描").unwrap_err().0, "启动扫描 失败: FAIL");
    assert_eq!(ensure_wpa_ok("  ", "断开 WiFi").unwrap_err().0, "断开 WiFi 失败: 空响应");
}

#[test]
fn wpa_command_failure_shows_stderr() {
    assert_eq!(wpa_command_result(true, "OK\n", "").ok().unwrap(), "OK\n");
    assert_eq!(
        wpa_command_result(false, "", "no socket").unwrap_err().0,
        "wpa_cli 命令失败: no socket"
    );
}

#[test]
fn scan_data_needs_a_line_after_the_header() {
    assert!(!has_scan_data("bssid / frequency / signal level / flags / ssid\n  \n"));
    assert!(has_scan_data("bssid / frequency\naa\t1\t2\t3\tx\n"));
    assert!(!has_scan_data(""));
}

#[test]
fn ssid_escapes_are_decoded() {
    assert_eq!(decode_wpa_ssid("\\xe4\\xb8\\xad\\xe6\\x96\\x87"), "中文");
    assert_eq!(decode_wpa_ssid("Plain Name"), "Plain Name");
    assert_eq!(decode_wpa_ssid("a\\xzzb"), "ab");
    assert_eq!(decode_wpa_ssid("\\xff"), "\u{FFFD}");
}

#[test]
fn scan_results_best_per_ssid_sorted() {
    let results = "bssid / frequency / signal level / flags / ssid\n\
aa:aa\t2412\t-70\t[WPA2-PSK-CCMP][ESS]\tHome\n\
bb:bb\t2437\t-40\t[WPA2-PSK-CCMP][ESS]\tHome\n\
cc:cc\t5180\t-55\t[WEP][ESS]\tOld\n\
dd:dd\tx\ty\t[ESS]\tCafe\n\
ee:ee\t2462\t-60\t[WPA-PSK-TKIP]\t\n\
short\tline\n";
    let ns = parse_scan_results(results).ok().unwrap();
    assert_eq!(ns.len(), 3);
    assert_eq!(ns[0].ssid, "Home");
    assert_eq!(ns[0].bssid, "bb:bb");
    assert_eq!(ns[0].signal, -40);
    assert_eq!(ns[0].security, "WPA2");
    assert_eq!(ns[0].frequency, 2437);
    assert_eq!(ns[1].ssid, "Old");
    assert_eq!(ns[1].security, "WEP");
    assert_eq!(ns[2].ssid, "Cafe");
    assert_eq!(ns[2].signal, -100);
    assert_eq!(ns[2].frequency, 0);
    assert_eq!(ns[2].security, "开放");
}

#[test]
fn scan_result_ssid_keeps_tabs() {
    let ns = parse_scan_results("header\naa\t1\t-1\t[WPA-PSK]\tA\tB\n").ok().unwrap();
    assert_eq!(ns.len(), 1);
    assert_eq!(ns[0].ssid, "A\tB");
    assert_eq!(ns[0].security, "WPA");
}

#[test]
fn status_fields_from_wpa_cli() {
    let st = parse_status("bssid=aa:bb\nssid=Home\nwpa_state=COMPLETED\nother=1\n", Some(s("10.0.0.3")));
    assert_eq!(st.state, "COMPLETED");
    assert_eq!(st.ssid.as_deref(), Some("Home"));
    assert_eq!(st.bssid.as_deref(), Some("aa:bb"));
    assert_eq!(st.ip.as_deref(), Some("10.0.0.3"));
    let empty = parse_status("", None);
    assert_eq!(empty.state, "DISCONNECTED");
    assert!(empty.ssid.is_none() && empty.ip.is_none());
}

#[test]
fn ip_address_from_ip_addr_show() {
    let out = "3: wlan0: <BROADCAST>\n    link/ether aa\n    inet 192.168.4.2/24 brd 192.168.4.255 scope global wlan0\n";
    assert_eq!(parse_ip_address(out).as_deref(), Some("192.168.4.2"));
    assert!(parse_ip_address("3: wlan0\n    inet6 fe80::1/64\n").is_none());
}

#[test]
fn networks_with_same_ssid_are_removed() {
    let list = "network id / ssid / bssid / flags\n0\tHome\tany\t[CURRENT]\n1\tOther\tany\t\n2\tHome\tany\t\n";
    assert_eq!(networks_to_remove(list, "Home"), vec![s("0"), s("2")]);
    assert!(networks_to_remove(list, "None").is_empty());
}

#[test]
fn diagnostics_join_both_replies() {
    let d = connection_diagnostics(Ok(s("wpa_state=SCANNING\n")), Err(WifiError(s("boom"))));
    assert_eq!(d, "status => wpa_state=SCANNING | list_networks => list_networks: boom");
}

#[test]
fn connect_flow_with_password() {
    let (mut session, first) = ConnectSession::start("Home", Some("secret"));
    assert_eq!(run_args(&first), vec![s("list_networks")]);
    let a = session.step(ConnectEvent::Wpa(Ok(s("network id / ssid\n3\tHome\tany\t\n"))));
    assert_eq!(run_args(&a), vec![s("remove_network"), s("3")]);
    let a = session.step(ConnectEvent::Wpa(Ok(s("OK\n"))));
    assert_eq!(run_args(&a), vec![s("add_network")]);
    let a = session.step(ConnectEvent::Wpa(Ok(s("4\n"))));
    assert_eq!(run_args(&a), vec![s("set_network"), s("4"), s("ssid"), s("\"Home\"")]);
    let a = session.step(ConnectEvent::Wpa(Ok(s("OK"))));
    assert_eq!(run_args(&a), vec![s("set_network"), s("4"), s("psk"), s("\"secret\"")]);
    let a = session.step(ConnectEvent::Wpa(Ok(s("OK"))));
    assert_eq!(run_args(&a), vec![s("select_network"), s("4")]);
    let a = session.step(ConnectEvent::Wpa(Ok(s("OK"))));
    assert_eq!(run_args(&a), vec![s("enable_network"), s("4")]);
    let a = session.step(ConnectEvent::Wpa(Ok(s("OK"))));
    assert_eq!(run_args(&a), vec![s("save_config")]);
    let a = session.step(ConnectEvent::Wpa(Ok(s("OK"))));
    assert!(matches!(a, ConnectAction::Wait(1)));
    let a = session.step(ConnectEvent::Waited);
    assert!(matches!(a, ConnectAction::QueryStatus));
    let a = session.step(ConnectEvent::StatusState(Some(s("ASSOCIATING"))));
    assert!(matches!(a, ConnectAction::Wait(1)));
    let a = session.step(ConnectEvent::Waited);
    assert!(matches!(a, ConnectAction::QueryStatus));
    let a = session.step(ConnectEvent::StatusState(Some(s("COMPLETED"))));
    assert!(matches!(a, ConnectAction::RunDhcp));
    let a = session.step(ConnectEvent::DhcpFinished);
    assert!(matches!(a, ConnectAction::Wait(2)));
    let a = session.step(ConnectEvent::Waited);
    assert!(matches!(a, ConnectAction::Finish(Ok(()))));
    assert!(session.phase() == ConnectPhase::Finished);
}

#[test]
fn connect_open_network_and_bad_id() {
    let (mut session, _) = ConnectSession::start("Cafe", Some(""));
    let a = session.step(ConnectEvent::Wpa(Ok(s("network id / ssid\n"))));
    assert_eq!(run_args(&a), vec![s("add_network")]);
    let a = session.step(ConnectEvent::Wpa(Ok(s("7"))));
    assert_eq!(run_args(&a), vec![s("set_network"), s("7"), s("ssid"), s("\"Cafe\"")]);
    let a = session.step(ConnectEvent::Wpa(Ok(s("OK"))));
    assert_eq!(run_args(&a), vec![s("set_network"), s("7"), s("key_mgmt"), s("NONE")]);
    let a = session.step(ConnectEvent::Wpa(Ok(s("FAIL"))));
    match a {
        ConnectAction::Finish(Err(e)) => assert_eq!(e.0, "设置开放网络模式 失败: FAIL"),
        _ => panic!("expected a failure"),
    }

    let (mut session, _) = ConnectSession::start("X", None);
    session.step(ConnectEvent::Wpa(Ok(s("header\n"))));
    match session.step(ConnectEvent::Wpa(Ok(s(" \n")))) {
        ConnectAction::Finish(Err(e)) => assert_eq!(e.0, "无法获取网络 ID: 空响应"),
        _ => panic!("expected a failure"),
    }
}

#[test]
fn connect_times_out_after_twenty_polls() {
    let (mut session, _) = ConnectSession::start("Home", None);
    session.step(ConnectEvent::Wpa(Ok(s("header\n"))));
    session.step(ConnectEvent::Wpa(Ok(s("1"))));
    for _ in 0..5 {
        session.step(ConnectEvent::Wpa(Ok(s("OK"))));
    }
    let mut polls = 0;
    loop {
        let a = session.step(ConnectEvent::Waited);
        assert!(matches!(a, ConnectAction::QueryStatus));
        polls += 1;
        match session.step(ConnectEvent::StatusState(Some(s("SCANNING")))) {
            ConnectAction::Wait(1) => {}
            ConnectAction::CollectDiagnostics => break,
            _ => panic!("unexpected action"),
        }
    }
    assert_eq!(polls, 20);
    match session.step(ConnectEvent::Diagnostics(s("a\nb"))) {
        ConnectAction::Finish(Err(e)) => {
            assert_eq!(e.0, "连接超时，最后状态: SCANNING，诊断信息: a; b")
        }
        _ => panic!("expected a timeout"),
    }
}

#[test]
fn scan_flow_reads_first_results_with_data() {
    let (mut scan, first) = ScanSession::start();
    assert!(matches!(first, ScanAction::RunWpa(ref a) if a == &vec![s("scan")]));
    assert!(matches!(scan.step(ScanEvent::Wpa(Ok(s("OK")))), ScanAction::Wait(1)));
    assert!(matches!(scan.step(ScanEvent::Waited), ScanAction::RunWpa(ref a) if a == &vec![s("scan_results")]));
    assert!(matches!(scan.step(ScanEvent::Wpa(Ok(s("header\n")))), ScanAction::Wait(1)));
    scan.step(ScanEvent::Waited);
    match scan.step(ScanEvent::Wpa(Ok(s("header\naa\t2412\t-50\t[ESS]\tNet\n")))) {
        ScanAction::Finish(Ok(ns)) => {
            assert_eq!(ns.len(), 1);
            assert_eq!(ns[0].ssid, "Net");
        }
        _ => panic!("expected results"),
    }
}

#[test]
fn scan_gives_up_after_five_fetches() {
    let (mut scan, _) = ScanSession::start();
    scan.step(ScanEvent::Wpa(Ok(s("OK"))));
    let mut fetches = 0;
    loop {
        scan.step(ScanEvent::Waited);
        fetches += 1;
        match scan.step(ScanEvent::Wpa(Ok(s("header\n")))) {
            ScanAction::Wait(1) => {}
            ScanAction::Finish(Ok(ns)) => {
                assert!(ns.is_empty());
                break;
            }
            _ => panic!("unexpected action"),
        }
    }
    assert_eq!(fetches, 5);
    let (mut failing, _) = ScanSession::start();
    match failing.step(ScanEvent::Wpa(Ok(s("FAIL-BUSY")))) {
        ScanAction::Finish(Err(e)) => assert_eq!(e.0, "启动扫描 失败: FAIL-BUSY"),
        _ => panic!("expected a failure"),
    }
}

#[test]
fn escaped_ssid_decodes_back() {
    for text in ["Café ☕ 网络", "plain", "", "a\\b\\x", "𝄞 x"] {
        let lower: String = text.bytes().map(|b| format!("\\x{:02x}", b)).collect();
        let upper: String = text.bytes().map(|b| format!("\\x{:02X}", b)).collect();
        assert_eq!(decode_wpa_ssid(&lower), text);
        assert_eq!(decode_wpa_ssid(&upper), text);
    }
}

#[test]
fn ssid_without_hex_escape_is_kept() {
    assert_eq!(decode_wpa_ssid("back\\slash\\"), "back\\slash\\");
    assert_eq!(decode_wpa_ssid("\\n\\t"), "\\n\\t");
}
