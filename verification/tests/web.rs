use device_cfg::device::system::CanStatus;
use device_cfg::device::wifi::{Network, Status};
use device_cfg::web::api::{
    canbusload_action, canbusload_percent_fields, canbusload_target, connect_password,
    requested_log_lines, CanbusloadAction, DiagnosticSchedule, LogFollower, LogQuery, NetworkInfo,
    StatusInfo,
};
use device_cfg::web::assets::{asset_file, content_type, embedded_file};

fn s(v: &str) -> String {
    v.to_string()
}

fn can(exists: bool, up: bool, bitrate: Option<u64>) -> CanStatus {
    CanStatus {
        iface: s("can0"),
        exists,
        operstate: s("up"),
        carrier: None,
        up,
        bitrate,
        rx_packets: 0,
        tx_packets: 0,
        rx_bytes: 0,
        tx_bytes: 0,
        rx_errors: 0,
        tx_errors: 0,
    }
}

#[test]
fn embedded_paths() {
    assert_eq!(embedded_file("//index.html").as_deref(), Some("index.html"));
    assert!(embedded_file("/").is_none());
    assert!(embedded_file("assets/../secret").is_none());
    assert_eq!(asset_file("app.js"), "assets/app.js");
}

#[test]
fn content_types() {
    assert_eq!(content_type("index.html"), "text/html");
    assert_eq!(content_type("assets/app.js"), "text/javascript");
    assert_eq!(content_type("assets/style.css"), "text/css");
    assert_eq!(content_type("LICENSE"), "application/octet-stream");
}

#[test]
fn request_shapes() {
    assert_eq!(connect_password(Some("")), None);
    assert_eq!(connect_password(Some("pw")), Some("pw"));
    assert_eq!(connect_password(None), None);
    assert_eq!(requested_log_lines(&LogQuery { lines: None }), 120);
    assert_eq!(requested_log_lines(&LogQuery { lines: Some(5) }), 5);
    let n = NetworkInfo::from_network(Network { ssid: s("a"), bssid: s("b"), signal: -1, security: s("WPA2"), frequency: 2412 });
    assert_eq!(n.ssid, "a");
    assert_eq!(n.frequency, 2412);
    let st = StatusInfo::from_status(Status { state: s("COMPLETED"), ssid: Some(s("x")), bssid: None, ip: None });
    assert_eq!(st.state, "COMPLETED");
    assert_eq!(st.ssid.as_deref(), Some("x"));
}

#[test]
fn ntp_refresh_schedule() {
    let mut sched = DiagnosticSchedule::new();
    let mut refreshed = Vec::new();
    for k in 0..65u64 {
        if sched.begin_tick() {
            refreshed.push(k);
        }
        assert!(sched.can_end_tick());
        sched.end_tick();
    }
    assert_eq!(refreshed, vec![0, 30, 60]);
}

#[test]
fn bus_load_monitor_decisions() {
    assert!(matches!(canbusload_action(None, &can(true, true, None)), CanbusloadAction::Stop));
    assert!(matches!(canbusload_action(None, &can(true, true, Some(0))), CanbusloadAction::Stop));
    assert!(matches!(canbusload_action(Some(("can0", 500)), &can(true, false, Some(500))), CanbusloadAction::Stop));
    assert!(matches!(canbusload_action(Some(("can0", 500)), &can(true, true, Some(500))), CanbusloadAction::Keep));
    match canbusload_action(Some(("can0", 250)), &can(true, true, Some(500))) {
        CanbusloadAction::Start(i, b) => {
            assert_eq!(i, "can0");
            assert_eq!(b, 500);
        }
        _ => panic!("expected a restart"),
    }
    assert_eq!(canbusload_target("can0", 500000), "can0@500000");
}

#[test]
fn bus_load_percent_fields() {
    assert_eq!(
        canbusload_percent_fields(" can0@500000   12  3456 |XX  | 37%  extra 40%", "can0"),
        Some(vec![s("37"), s("40")])
    );
    assert_eq!(canbusload_percent_fields("can1@500 10%", "can0"), None);
    assert_eq!(canbusload_percent_fields("", "can0"), None);
    assert_eq!(canbusload_percent_fields("can0@1 % x", "can0"), Some(vec![s("")]));
}

#[test]
fn log_follower_offsets() {
    let mut f = LogFollower::new(100);
    assert_eq!(f.read_from(100), None);
    assert_eq!(f.read_from(150), Some(100));
    f.consumed(50);
    assert_eq!(f.offset(), 150);
    assert_eq!(f.read_from(20), Some(0));
    assert_eq!(f.offset(), 0);
    assert_eq!(f.read_from(0), None);
}
