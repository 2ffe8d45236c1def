use device_cfg::device::ethernet::{
    config_to_write, ethernet_status, parse_default_gateway, parse_dns_nameservers,
    parse_ethernet_settings, parse_ipv4_info, prefix_to_netmask, render_config, restart_result,
    validate_settings, EthernetConfig, EthernetMode, EthernetService, EthernetSettings,
};
use device_cfg::device::netif::InterfaceReadings;

fn s(v: &str) -> String {
    v.to_string()
}

fn static_settings() -> EthernetSettings {
    EthernetSettings {
        mode: EthernetMode::Static,
        address: Some(s(" 192.168.1.10 ")),
        netmask: Some(s("255.255.255.0")),
        gateway: Some(s("192.168.1.1")),
        dns_nameservers: vec![s(" 8.8.8.8"), s("1.1.1.1 ")],
    }
}

fn no_readings() -> InterfaceReadings {
    InterfaceReadings {
        operstate: None,
        carrier: None,
        flags: None,
        address: None,
        rx_packets: None,
        tx_packets: None,
        rx_bytes: None,
        tx_bytes: None,
        rx_errors: None,
        tx_errors: None,
    }
}

#[test]
fn config_defaults_apply_when_unset() {
    let c = EthernetConfig::from_env_values(None, Some(s("/tmp/eth")), None);
    assert_eq!(c.iface(), "eth0");
    assert_eq!(c.config_path(), "/tmp/eth");
    assert_eq!(c.network_restart_bin(), "/etc/init.d/S40network");
    let svc = EthernetService::new(c);
    assert_eq!(
        svc.config_summary(),
        "以太网配置: iface=eth0, config_path=/tmp/eth, network_restart_bin=/etc/init.d/S40network"
    );
}

#[test]
fn dhcp_config_renders_fixed_file() {
    let settings = EthernetSettings {
        mode: EthernetMode::Dhcp,
        address: Some(s("10.0.0.2")),
        netmask: None,
        gateway: None,
        dns_nameservers: vec![],
    };
    assert_eq!(
        render_config("eth0", &settings),
        "auto eth0\niface eth0 inet dhcp\n    pre-up /etc/network/nfs_check\n    pre-up /usr/sbin/eth-mac-prepare eth0\n    wait-delay 15\n    hostname $(hostname)\n"
    );
}

#[test]
fn static_config_renders_trimmed_values() {
    assert_eq!(
        render_config("eth1", &static_settings()),
        "auto eth1\niface eth1 inet static\n    pre-up /etc/network/nfs_check\n    pre-up /usr/sbin/eth-mac-prepare eth1\n    address 192.168.1.10\n    netmask 255.255.255.0\n    gateway 192.168.1.1\n    dns-nameservers 8.8.8.8 1.1.1.1\n"
    );
}

#[test]
fn static_config_without_gateway_or_dns() {
    let settings = EthernetSettings {
        mode: EthernetMode::Static,
        address: Some(s("10.1.2.3")),
        netmask: Some(s("255.0.0.0")),
        gateway: Some(s("   ")),
        dns_nameservers: vec![],
    };
    assert_eq!(
        render_config("eth0", &settings),
        "auto eth0\niface eth0 inet static\n    pre-up /etc/network/nfs_check\n    pre-up /usr/sbin/eth-mac-prepare eth0\n    address 10.1.2.3\n    netmask 255.0.0.0\n"
    );
}

#[test]
fn rendered_static_config_reads_back() {
    let body = render_config("eth0", &static_settings());
    let back = parse_ethernet_settings(&body);
    assert!(back.mode == EthernetMode::Static);
    assert_eq!(back.address.as_deref(), Some("192.168.1.10"));
    assert_eq!(back.netmask.as_deref(), Some("255.255.255.0"));
    assert_eq!(back.gateway.as_deref(), Some("192.168.1.1"));
    assert_eq!(back.dns_nameservers, vec![s("8.8.8.8"), s("1.1.1.1")]);
}

#[test]
fn rendered_dhcp_config_reads_back_empty() {
    let settings = EthernetSettings {
        mode: EthernetMode::Dhcp,
        address: Some(s("10.0.0.2")),
        netmask: Some(s("255.0.0.0")),
        gateway: None,
        dns_nameservers: vec![s("8.8.8.8")],
    };
    let back = parse_ethernet_settings(&render_config("eth0", &settings));
    assert!(back.mode == EthernetMode::Dhcp);
    assert!(back.address.is_none());
    assert!(back.netmask.is_none());
    assert!(back.gateway.is_none());
    assert!(back.dns_nameservers.is_empty());
}

#[test]
fn parse_settings_skips_comments_and_keeps_last_value() {
    let raw = "# address 1.1.1.1\nauto eth0\niface eth0 inet static\n  address 10.0.0.1\naddress 10.0.0.9\r\n  gateway\n";
    let st = parse_ethernet_settings(raw);
    assert!(st.mode == EthernetMode::Static);
    assert_eq!(st.address.as_deref(), Some("10.0.0.9"));
    assert!(st.gateway.is_none());
    assert!(st.netmask.is_none());
}

#[test]
fn parse_settings_of_empty_text_is_dhcp() {
    let st = parse_ethernet_settings("");
    assert!(st.mode == EthernetMode::Dhcp);
    assert!(st.address.is_none());
}

#[test]
fn validation_accepts_dhcp_and_valid_static() {
    let dhcp = EthernetSettings {
        mode: EthernetMode::Dhcp,
        address: Some(s("nonsense")),
        netmask: None,
        gateway: None,
        dns_nameservers: vec![s("x")],
    };
    assert!(validate_settings(&dhcp).is_ok());
    assert!(validate_settings(&static_settings()).is_ok());
}

#[test]
fn validation_requires_address() {
    let mut st = static_settings();
    st.address = Some(s("  "));
    assert_eq!(validate_settings(&st).unwrap_err().0, "静态 IP 地址不能为空");
    st.address = None;
    assert_eq!(validate_settings(&st).unwrap_err().0, "静态 IP 地址不能为空");
}

#[test]
fn validation_reports_bad_values_in_order() {
    let mut st = static_settings();
    st.netmask = Some(s("255.255.255.256"));
    assert_eq!(validate_settings(&st).unwrap_err().0, "子网掩码格式无效: 255.255.255.256");
    let mut st = static_settings();
    st.gateway = Some(s("192.168.1"));
    assert_eq!(validate_settings(&st).unwrap_err().0, "网关格式无效: 192.168.1");
    let mut st = static_settings();
    st.dns_nameservers = vec![s("8.8.8.8"), s(""), s("bad")];
    assert_eq!(validate_settings(&st).unwrap_err().0, "DNS 服务器格式无效: ");
    let mut st = static_settings();
    st.address = Some(s("010.0.0.1"));
    assert_eq!(validate_settings(&st).unwrap_err().0, "静态 IP 地址格式无效: 010.0.0.1");
}

#[test]
fn config_to_write_validates_first() {
    let mut st = static_settings();
    st.netmask = None;
    assert_eq!(config_to_write("eth0", &st).unwrap_err().0, "子网掩码不能为空");
    let ok = config_to_write("eth0", &static_settings()).ok().unwrap();
    assert_eq!(ok, render_config("eth0", &static_settings()));
}

#[test]
fn netmask_of_prefix_lengths() {
    assert_eq!(prefix_to_netmask(24).as_deref(), Some("255.255.255.0"));
    assert_eq!(prefix_to_netmask(0).as_deref(), Some("0.0.0.0"));
    assert_eq!(prefix_to_netmask(32).as_deref(), Some("255.255.255.255"));
    assert_eq!(prefix_to_netmask(20).as_deref(), Some("255.255.240.0"));
    assert!(prefix_to_netmask(33).is_none());
}

#[test]
fn ipv4_info_from_ip_output() {
    let out = "2: eth0    inet 192.168.1.10/24 brd 192.168.1.255 scope global eth0\\       valid_lft forever\n2: eth0    inet 10.0.0.5/8 scope global secondary eth0\n";
    let info = parse_ipv4_info(out);
    assert_eq!(info.addresses, vec![s("192.168.1.10/24"), s("10.0.0.5/8")]);
    assert_eq!(info.primary.as_deref(), Some("192.168.1.10"));
    assert_eq!(info.netmask.as_deref(), Some("255.255.255.0"));
}

#[test]
fn ipv4_info_without_prefix_or_inet() {
    let info = parse_ipv4_info("2: eth0 inet 10.0.0.5\n3: eth0 inet\n");
    assert_eq!(info.addresses, vec![s("10.0.0.5")]);
    assert_eq!(info.primary.as_deref(), Some("10.0.0.5"));
    assert!(info.netmask.is_none());
    let none = parse_ipv4_info("");
    assert!(none.addresses.is_empty() && none.primary.is_none() && none.netmask.is_none());
}

#[test]
fn default_gateway_follows_via() {
    assert_eq!(
        parse_default_gateway("default via 192.168.1.1 dev eth0 proto static\n").as_deref(),
        Some("192.168.1.1")
    );
    assert!(parse_default_gateway("default dev eth0 via").is_none());
    assert!(parse_default_gateway("").is_none());
}

#[test]
fn dns_servers_from_resolv_conf() {
    let raw = "# nameserver 9.9.9.9\nnameserver 8.8.8.8\n  nameserver   1.1.1.1  extra\nnameserver\nsearch lan\n";
    assert_eq!(parse_dns_nameservers(raw), vec![s("8.8.8.8"), s("1.1.1.1")]);
}

#[test]
fn restart_output_trimmed_or_failure() {
    assert_eq!(restart_result(true, " ok\n", "").ok().unwrap(), "ok");
    assert_eq!(
        restart_result(false, "", "boom\n").unwrap_err().0,
        "网络服务重启失败: boom"
    );
}

#[test]
fn status_of_missing_interface() {
    let st = ethernet_status("eth0", false, &no_readings(), None, None, Some("nameserver 8.8.4.4\n"), None);
    assert_eq!(st.operstate, "missing");
    assert!(!st.up && !st.exists);
    assert_eq!(st.dns_nameservers, vec![s("8.8.4.4")]);
    assert_eq!(st.config_mode.as_deref(), Some("dhcp"));
    assert_eq!(st.rx_bytes, 0);
}

#[test]
fn status_of_present_interface() {
    let mut files = no_readings();
    files.operstate = Some(s("down\n"));
    files.carrier = Some(s("1\n"));
    files.flags = Some(s("0x1003\n"));
    files.address = Some(s("aa:bb:cc:dd:ee:ff\n"));
    files.rx_bytes = Some(s("1234\n"));
    files.tx_bytes = Some(s("oops"));
    let st = ethernet_status(
        "eth0",
        true,
        &files,
        Some("2: eth0 inet 10.0.0.2/16 scope global eth0\n"),
        Some("default via 10.0.0.1 dev eth0"),
        None,
        Some("iface eth0 inet static\n"),
    );
    assert_eq!(st.operstate, "down");
    assert_eq!(st.carrier, Some(true));
    assert!(st.up);
    assert_eq!(st.mac_address.as_deref(), Some("aa:bb:cc:dd:ee:ff"));
    assert_eq!(st.primary_ipv4.as_deref(), Some("10.0.0.2"));
    assert_eq!(st.netmask.as_deref(), Some("255.255.0.0"));
    assert_eq!(st.gateway.as_deref(), Some("10.0.0.1"));
    assert!(st.dns_nameservers.is_empty());
    assert_eq!(st.rx_bytes, 1234);
    assert_eq!(st.tx_bytes, 0);
    assert_eq!(st.config_mode.as_deref(), Some("static"));
}

#[test]
fn every_reported_netmask_passes_validation() {
    for prefix in 0u8..=32 {
        let mut st = static_settings();
        st.netmask = prefix_to_netmask(prefix);
        assert!(st.netmask.is_some());
        assert!(validate_settings(&st).is_ok(), "prefix {}", prefix);
    }
    let info = parse_ipv4_info("3: eth0    inet 10.0.0.7/9 brd 10.127.255.255 scope global eth0\n");
    let mut st = static_settings();
    st.netmask = info.netmask.clone();
    assert_eq!(info.netmask.as_deref(), Some("255.128.0.0"));
    assert!(validate_settings(&st).is_ok());
}

#[test]
fn rendered_single_word_values_read_back() {
    let st = EthernetSettings {
        mode: EthernetMode::Static,
        address: Some(s("  not-an-address ")),
        netmask: Some(s("   ")),
        gateway: Some(s(" gw ")),
        dns_nameservers: vec![s("x"), s("  "), s(" y ")],
    };
    let back = parse_ethernet_settings(&render_config("eth0", &st));
    assert!(back.mode == EthernetMode::Static);
    assert_eq!(back.address.as_deref(), Some("not-an-address"));
    assert!(back.netmask.is_none());
    assert_eq!(back.gateway.as_deref(), Some("gw"));
    assert_eq!(back.dns_nameservers, vec![s("x"), s("y")]);
    let none = EthernetSettings { address: None, ..st };
    assert!(parse_ethernet_settings(&render_config("eth0", &none)).address.is_none());
}
