use device_cfg::device::daemon::{
    release_from_json, daemon_status, file_name_eq, file_name_starts_with,
    find_extracted_binary, find_target_asset, install_plan, install_result, installed_record,
    join_path, log_info, log_line_limit, parse_pid, running_pid_decision, start_decision,
    trimmed_log, verify_sha256, ChildState, PidCheck,
    DaemonAsset, DaemonConfig, DaemonRelease, DaemonSettings, ExtractedFile, InstallMode,
    StartDecision,
};
use device_cfg::device::update::{AssetJson, ReleaseJson};

fn s(v: &str) -> String {
    v.to_string()
}

fn settings() -> DaemonSettings {
    DaemonSettings {
        repo_owner: None,
        repo_name: None,
        asset_prefix: None,
        bin_name: None,
        target: Some(s("armv7-unknown-linux-gnueabihf")),
        github_api_url: None,
        mirrors: Some(s("https://m")),
        install_dir: None,
        log_path: None,
        pid_path: Some(s("/run/d.pid")),
        version_path: None,
        log_max_lines: None,
        args: Some(s(" --port  9000 -v ")),
    }
}

fn d_asset(name: &str, sha: Option<&str>) -> DaemonAsset {
    DaemonAsset { name: s(name), download_url: format!("https://dl/{name}"), sha256: sha.map(s) }
}

fn d_release(version: &str, assets: Vec<DaemonAsset>) -> DaemonRelease {
    DaemonRelease { version: s(version), body: None, assets }
}

#[test]
fn daemon_config_paths_and_args() {
    let c = DaemonConfig::from_env_values(settings());
    assert_eq!(c.install_dir(), "/opt/device_cfg/udp_gw");
    assert_eq!(c.log_path(), "/opt/device_cfg/udp_gw/udp_gw_builder.log");
    assert_eq!(c.pid_path(), "/run/d.pid");
    assert_eq!(c.version_path(), "/opt/device_cfg/udp_gw/udp_gw_builder.version.json");
    assert_eq!(c.executable_path(), "/opt/device_cfg/udp_gw/XPlaneUDP");
    assert_eq!(c.log_max_lines(), 2000);
    assert_eq!(c.args(), &vec![s("--port"), s("9000"), s("-v")]);
    assert_eq!(
        c.config_summary(),
        "守护进程配置: repo=xin5683/udp_gw_builder, asset_prefix=XPlaneUDP, bin=XPlaneUDP, target=armv7-unknown-linux-gnueabihf, install_dir=/opt/device_cfg/udp_gw, log=/opt/device_cfg/udp_gw/udp_gw_builder.log, log_max_lines=2000, mirrors=https://m"
    );
    let mut st = settings();
    st.log_max_lines = Some(s("0"));
    assert_eq!(DaemonConfig::from_env_values(st).log_max_lines(), 2000);
    let mut st = settings();
    st.log_max_lines = Some(s("50"));
    st.install_dir = Some(s("/srv/"));
    st.bin_name = Some(s("/usr/bin/gw"));
    let c = DaemonConfig::from_env_values(st);
    assert_eq!(c.log_max_lines(), 50);
    assert_eq!(c.log_path(), "/srv/udp_gw_builder.log");
    assert_eq!(c.executable_path(), "/usr/bin/gw");
}

#[test]
fn path_joining() {
    assert_eq!(join_path("/a", "b"), "/a/b");
    assert_eq!(join_path("/a/", "b"), "/a/b");
    assert_eq!(join_path("", "b"), "b");
    assert_eq!(join_path("/a", "/b"), "/b");
}

#[test]
fn daemon_release_digest() {
    let j = ReleaseJson {
        tag_name: Some(s("v2.0.1")),
        created_at: None,
        name: None,
        body: None,
        assets: Some(vec![AssetJson {
            name: Some(s("XPlaneUDP-armv7.tar.gz")),
            browser_download_url: Some(s("u")),
            digest: Some(s("sha256:abcd")),
        }, AssetJson {
            name: Some(s("other")),
            browser_download_url: Some(s("v")),
            digest: Some(s("md5:1")),
        }]),
    };
    let r = release_from_json(&j).ok().unwrap();
    assert_eq!(r.version, "2.0.1");
    assert_eq!(r.assets[0].sha256.as_deref(), Some("abcd"));
    assert!(r.assets[1].sha256.is_none());
    let bad = ReleaseJson { assets: None, ..j };
    assert_eq!(release_from_json(&bad).err().unwrap().0, "release 缺少 assets");
}

#[test]
fn daemon_asset_needs_prefix_and_target() {
    let c = DaemonConfig::from_env_values(settings());
    let r = d_release(
        "1.0.0",
        vec![
            d_asset("other-armv7-unknown-linux-gnueabihf.tgz", Some("1")),
            d_asset("XPlaneUDP-x86_64.tgz", Some("2")),
            d_asset("XPlaneUDP-armv7-unknown-linux-gnueabihf.tgz", Some("3")),
        ],
    );
    assert_eq!(find_target_asset(&c, &r).unwrap().sha256.as_deref(), Some("3"));
    assert!(find_target_asset(&c, &d_release("1", vec![d_asset("x", None)])).is_none());
}

#[test]
fn install_plans() {
    let c = DaemonConfig::from_env_values(settings());
    let good = d_asset("XPlaneUDP-armv7-unknown-linux-gnueabihf.tgz", Some("ABCD"));
    let r = d_release("1.2.0", vec![good]);
    assert_eq!(
        install_plan(&c, &r, Some("1.2.0"), InstallMode::Upgrade).err().unwrap().0,
        "守护进程已是最新版本: v1.2.0"
    );
    let (a, sha, urls) = install_plan(&c, &r, Some("1.2.0"), InstallMode::Pull).ok().unwrap();
    assert_eq!(a.name, "XPlaneUDP-armv7-unknown-linux-gnueabihf.tgz");
    assert_eq!(sha, "ABCD");
    assert_eq!(
        urls,
        vec![
            s("https://m/https://dl/XPlaneUDP-armv7-unknown-linux-gnueabihf.tgz"),
            s("https://dl/XPlaneUDP-armv7-unknown-linux-gnueabihf.tgz")
        ]
    );
    assert!(install_plan(&c, &r, Some("1.1.0"), InstallMode::Upgrade).is_ok());
    let no_digest = d_release("1.3.0", vec![d_asset("XPlaneUDP-armv7-unknown-linux-gnueabihf.tgz", None)]);
    assert_eq!(
        install_plan(&c, &no_digest, None, InstallMode::Upgrade).err().unwrap().0,
        "守护进程 release asset 缺少 GitHub sha256 digest: XPlaneUDP-armv7-unknown-linux-gnueabihf.tgz"
    );
    let none = d_release("1.3.0", vec![d_asset("a", None), d_asset("b", None)]);
    assert_eq!(
        install_plan(&c, &none, None, InstallMode::Pull).err().unwrap().0,
        "未找到匹配 target=armv7-unknown-linux-gnueabihf 的守护进程 release asset，可用 assets: a, b"
    );
}

#[test]
fn digests_compare_without_case() {
    assert!(verify_sha256("ABCdef01", "abcDEF01").is_ok());
    assert_eq!(
        verify_sha256("aa", "ab").unwrap_err().0,
        "守护进程更新包 SHA256 校验失败: expected=aa actual=ab"
    );
    assert!(verify_sha256("aa", "aaa").is_err());
}

#[test]
fn install_records_and_results() {
    let c = DaemonConfig::from_env_values(settings());
    let a = d_asset("XPlaneUDP-armv7-unknown-linux-gnueabihf.tgz", Some("ab"));
    let r = d_release("1.2.0", vec![]);
    let rec = installed_record(&c, &r, &a, "ab");
    assert_eq!(rec.version, "1.2.0");
    assert_eq!(rec.target, "armv7-unknown-linux-gnueabihf");
    let res = install_result(&c, &r, &a, Some(s("1.1.0")), s("ab"), s("https://m/x"));
    assert_eq!(res.installed_path, "/opt/device_cfg/udp_gw/XPlaneUDP");
    assert_eq!(res.previous_version.as_deref(), Some("1.1.0"));
    let st = daemon_status(&c, Some(42), true, Some(&rec));
    assert!(st.running);
    assert_eq!(st.pid, Some(42));
    assert_eq!(st.installed_version.as_deref(), Some("1.2.0"));
    assert_eq!(st.pid_path, "/run/d.pid");
    let idle = daemon_status(&c, None, false, None);
    assert!(!idle.running && idle.installed_version.is_none());
}

#[test]
fn file_names_of_paths() {
    assert!(file_name_eq("/tmp/x/XPlaneUDP", "XPlaneUDP"));
    assert!(file_name_eq("/tmp/x/XPlaneUDP/", "XPlaneUDP"));
    assert!(file_name_eq("XPlaneUDP/.", "XPlaneUDP"));
    assert!(!file_name_eq("/tmp/..", ".."));
    assert!(!file_name_eq("/", ""));
    assert!(file_name_starts_with("/a/XPlaneUDP-v2", "XPlaneUDP"));
    assert!(!file_name_starts_with("/XPlaneUDP/other", "XPlaneUDP"));
}

#[test]
fn extracted_binary_choice() {
    let f = |p: &str, x: bool| ExtractedFile { path: s(p), executable: x };
    let files = vec![f("/t/readme", false), f("/t/run.sh", true), f("/t/XPlaneUDP-linux", true), f("/t/bin/XPlaneUDP", true)];
    assert_eq!(find_extracted_binary(&files, "XPlaneUDP").ok().unwrap(), "/t/bin/XPlaneUDP");
    let files = vec![f("/t/readme", false), f("/t/run.sh", true), f("/t/XPlaneUDP-linux", false)];
    assert_eq!(find_extracted_binary(&files, "XPlaneUDP").ok().unwrap(), "/t/XPlaneUDP-linux");
    let files = vec![f("/t/readme", false), f("/t/run.sh", true)];
    assert_eq!(find_extracted_binary(&files, "XPlaneUDP").ok().unwrap(), "/t/run.sh");
    let files = vec![f("/t/readme", false)];
    assert_eq!(
        find_extracted_binary(&files, "XPlaneUDP").err().unwrap().0,
        "解压后未找到守护进程可执行文件: XPlaneUDP"
    );
}

#[test]
fn start_decisions() {
    let c = DaemonConfig::from_env_values(settings());
    match start_decision(&c, Some(7), false) {
        StartDecision::AlreadyRunning(r) => {
            assert_eq!(r.pid, 7);
            assert_eq!(r.log_path, "/opt/device_cfg/udp_gw/udp_gw_builder.log");
        }
        _ => panic!("expected already running"),
    }
    match start_decision(&c, None, false) {
        StartDecision::NotInstalled(e) => assert_eq!(e.0, "守护进程尚未安装: /opt/device_cfg/udp_gw/XPlaneUDP"),
        _ => panic!("expected not installed"),
    }
    assert!(matches!(start_decision(&c, None, true), StartDecision::Launch));
}

#[test]
fn pid_files() {
    assert_eq!(parse_pid(" 1234\n"), Some(1234));
    assert_eq!(parse_pid("x"), None);
    assert_eq!(parse_pid(""), None);
}

#[test]
fn log_limits_and_tails() {
    assert_eq!(log_line_limit(0, 2000), 1);
    assert_eq!(log_line_limit(5000, 2000), 2000);
    assert_eq!(log_line_limit(10, 0), 1);
    assert_eq!(log_line_limit(120, 2000), 120);
    let mut st = settings();
    st.log_max_lines = Some(s("3"));
    let c = DaemonConfig::from_env_values(st);
    let info = log_info(&c, 2, Some("a\nb\nc\nd\n"));
    assert_eq!(info.lines, vec![s("c"), s("d")]);
    let info = log_info(&c, 100, Some("a\nb\r\nc\nd"));
    assert_eq!(info.lines, vec![s("b"), s("c"), s("d")]);
    assert!(log_info(&c, 5, None).lines.is_empty());
}

#[test]
fn log_trimming_keeps_last_lines() {
    assert_eq!(trimmed_log("1\n2\n3\n4\n5\n", 2).as_deref(), Some("4\n5\n"));
    assert!(trimmed_log("1\n2\n", 2).is_none());
    assert!(trimmed_log("1\n2\n3\n", 0).is_none());
}

#[test]
fn running_pid_decisions() {
    let keep = |pid| PidCheck { pid, remove_pid_file: false, forget_child: false };
    assert_eq!(running_pid_decision(ChildState::Running(42), Some(7), false), keep(Some(42)));
    assert_eq!(
        running_pid_decision(ChildState::Exited, Some(7), true),
        PidCheck { pid: None, remove_pid_file: true, forget_child: true }
    );
    assert_eq!(running_pid_decision(ChildState::Absent, Some(7), true), keep(Some(7)));
    assert_eq!(
        running_pid_decision(ChildState::Absent, Some(7), false),
        PidCheck { pid: None, remove_pid_file: true, forget_child: false }
    );
    assert_eq!(running_pid_decision(ChildState::Absent, None, false), keep(None));
}

#[test]
fn pid_check_settles_on_second_look() {
    // A stale pid file is removed once; the next check finds nothing and removes nothing.
    let first = running_pid_decision(ChildState::Absent, Some(9), false);
    assert!(first.remove_pid_file);
    let second = running_pid_decision(ChildState::Absent, None, false);
    assert_eq!(second.pid, first.pid);
    assert!(!second.remove_pid_file && !second.forget_child);
    // An exited child is forgotten; the next check finds nothing.
    let first = running_pid_decision(ChildState::Exited, None, false);
    let second = running_pid_decision(ChildState::Absent, None, false);
    assert!(first.forget_child && second.pid.is_none());
    // A running child is reported both times.
    let first = running_pid_decision(ChildState::Running(5), None, false);
    let second = running_pid_decision(ChildState::Running(5), None, false);
    assert_eq!(first, second);
    assert_eq!(first.pid, Some(5));
}
