use device_cfg::device::update::{
    archive_bin_name, build_mirror_urls, build_update_info, default_mirrors, find_target_asset,
    is_newer_version, latest_release_api_url, mirror_urls, mirrors_from_setting,
    release_asset_for, release_from_json, release_page_url, AssetJson, MirrorAttempts, Release,
    ReleaseAsset, ReleaseJson, UpdateConfig, UpdateService,
};

fn s(v: &str) -> String {
    v.to_string()
}

fn config(mirrors: Option<&str>) -> UpdateConfig {
    UpdateConfig::from_env_values(
        None,
        None,
        None,
        "0.1.0",
        Some(s("aarch64-unknown-linux-gnu")),
        None,
        mirrors.map(s),
    )
}

fn asset(name: &str) -> ReleaseAsset {
    ReleaseAsset { name: s(name), download_url: format!("https://dl/{name}") }
}

fn release(version: &str, names: &[&str]) -> Release {
    Release {
        name: s("r"),
        version: s(version),
        date: s("2024-01-01"),
        body: Some(s("notes")),
        assets: names.iter().map(|n| asset(n)).collect(),
    }
}

fn json_asset(name: Option<&str>, url: Option<&str>) -> AssetJson {
    AssetJson { name: name.map(s), browser_download_url: url.map(s), digest: None }
}

#[test]
fn newer_versions() {
    assert!(is_newer_version("0.1.0", "0.2.0"));
    assert!(is_newer_version("0.1.9", "0.1.10"));
    assert!(!is_newer_version("0.2.0", "0.1.0"));
    assert!(!is_newer_version("1.0.0", "1.0.0"));
    assert!(!is_newer_version("1.0.0", "1.0.0-alpha"));
    assert!(is_newer_version("1.0.0-alpha", "1.0.0"));
    assert!(is_newer_version("abc", "abd"));
    assert!(!is_newer_version("abc", "abc"));
    assert!(is_newer_version("1.0.0", "v1.0.0"));
}

#[test]
fn mirrors_from_settings() {
    assert_eq!(default_mirrors().len(), 7);
    assert_eq!(default_mirrors()[0], "https://gh-proxy.org");
    assert_eq!(
        mirrors_from_setting(Some(" https://a.example/ , ,https://b.example")),
        vec![s("https://a.example/"), s("https://b.example")]
    );
    assert_eq!(mirrors_from_setting(Some(" , ")), default_mirrors());
    assert_eq!(mirrors_from_setting(None), default_mirrors());
}

#[test]
fn mirror_urls_end_with_the_direct_url() {
    let urls = build_mirror_urls(&vec![s("https://m1//"), s("https://m2")], "https://github.com/x");
    assert_eq!(
        urls,
        vec![
            s("https://m1/https://github.com/x"),
            s("https://m2/https://github.com/x"),
            s("https://github.com/x")
        ]
    );
    let c = config(Some("https://m"));
    assert_eq!(mirror_urls(&c, "u"), vec![s("https://m/u"), s("u")]);
    assert_eq!(build_mirror_urls(&vec![], "u"), vec![s("u")]);
}

#[test]
fn update_config_summary() {
    let c = config(Some("https://m1,https://m2"));
    assert_eq!(c.current_version(), "0.1.0");
    assert_eq!(
        c.config_summary(),
        "更新配置: repo=xin5683/device_cfg, target=aarch64-unknown-linux-gnu, mirrors=https://m1,https://m2"
    );
    assert_eq!(archive_bin_name(&c), "device_cfg-aarch64-unknown-linux-gnu");
}

#[test]
fn api_and_page_urls() {
    assert_eq!(
        latest_release_api_url("https://api.github.com//", "o", "r"),
        "https://api.github.com/repos/o/r/releases/latest"
    );
    assert_eq!(release_page_url("o", "r", "1.2.3"), "https://github.com/o/r/releases/tag/v1.2.3");
    let svc = UpdateService::new(config(Some("https://m")));
    assert_eq!(
        svc.release_api_urls(),
        vec![
            s("https://m/https://api.github.com/repos/xin5683/device_cfg/releases/latest"),
            s("https://api.github.com/repos/xin5683/device_cfg/releases/latest")
        ]
    );
}

#[test]
fn release_json_requirements() {
    let full = ReleaseJson {
        tag_name: Some(s("vv1.2.0")),
        created_at: Some(s("2024")),
        name: None,
        body: Some(s("b")),
        assets: Some(vec![json_asset(Some("a"), Some("u"))]),
    };
    let r = release_from_json(&full).ok().unwrap();
    assert_eq!(r.version, "1.2.0");
    assert_eq!(r.name, "vv1.2.0");
    assert_eq!(r.assets.len(), 1);
    assert_eq!(r.assets[0].download_url, "u");

    let mut j = ReleaseJson { tag_name: None, ..full };
    assert_eq!(release_from_json(&j).err().unwrap().0, "release 缺少 tag_name");
    j.tag_name = Some(s("v1"));
    j.created_at = None;
    assert_eq!(release_from_json(&j).err().unwrap().0, "release 缺少 created_at");
    j.created_at = Some(s("d"));
    j.assets = None;
    assert_eq!(release_from_json(&j).err().unwrap().0, "release 缺少 assets");
    j.assets = Some(vec![json_asset(Some("a"), None), json_asset(None, Some("u"))]);
    assert_eq!(release_from_json(&j).err().unwrap().0, "release asset 缺少 browser_download_url");
    j.assets = Some(vec![json_asset(None, None)]);
    assert_eq!(release_from_json(&j).err().unwrap().0, "release asset 缺少 name");
}

#[test]
fn target_asset_prefers_program_name() {
    let c = config(None);
    let r = release(
        "0.2.0",
        &["other-aarch64-unknown-linux-gnu.tar.gz", "device_cfg-aarch64-unknown-linux-gnu.tar.gz"],
    );
    assert_eq!(find_target_asset(&c, &r).unwrap().name, "device_cfg-aarch64-unknown-linux-gnu.tar.gz");
    let r2 = release("0.2.0", &["x.zip", "tool-aarch64-unknown-linux-gnu.tar.gz"]);
    assert_eq!(find_target_asset(&c, &r2).unwrap().name, "tool-aarch64-unknown-linux-gnu.tar.gz");
    let r3 = release("0.2.0", &["a.zip", "b.zip"]);
    assert!(find_target_asset(&c, &r3).is_none());
    assert_eq!(
        release_asset_for(&c, &r3).err().unwrap().0,
        "未找到匹配 target=aarch64-unknown-linux-gnu 的 release asset，可用 assets: a.zip, b.zip"
    );
}

#[test]
fn update_info_of_a_release() {
    let c = config(Some("https://m"));
    let r = release("0.2.0", &["device_cfg-aarch64-unknown-linux-gnu.tar.gz"]);
    let info = build_update_info(&c, &r);
    assert!(info.update_available);
    assert_eq!(info.current_version, "0.1.0");
    assert_eq!(info.latest_version, "0.2.0");
    assert_eq!(info.asset_name.as_deref(), Some("device_cfg-aarch64-unknown-linux-gnu.tar.gz"));
    assert_eq!(info.mirror_urls.len(), 2);
    assert_eq!(info.release_url, "https://github.com/xin5683/device_cfg/releases/tag/v0.2.0");
    assert_eq!(info.release_notes.as_deref(), Some("notes"));
    let none = build_update_info(&c, &release("0.1.0", &["a.zip"]));
    assert!(!none.update_available);
    assert!(none.asset_name.is_none() && none.download_url.is_none() && none.mirror_urls.is_empty());
}

#[test]
fn update_plan_refuses_current_version() {
    let svc = UpdateService::new(config(None));
    let same = release("0.1.0", &["device_cfg-aarch64-unknown-linux-gnu.tar.gz"]);
    assert_eq!(svc.update_plan(&same).err().unwrap().0, "当前已是最新版本: v0.1.0");
    let newer = release("0.3.0", &["device_cfg-aarch64-unknown-linux-gnu.tar.gz"]);
    let (a, urls) = svc.update_plan(&newer).ok().unwrap();
    assert_eq!(a.name, "device_cfg-aarch64-unknown-linux-gnu.tar.gz");
    assert_eq!(urls.len(), 8);
    assert_eq!(urls[7], "https://dl/device_cfg-aarch64-unknown-linux-gnu.tar.gz");
    let r = svc.applied(&newer, &a, s("https://x"), s("/usr/bin/device_cfg"));
    assert_eq!(r.previous_version, "0.1.0");
    assert_eq!(r.updated_version, "0.3.0");
    assert_eq!(r.downloaded_from, "https://x");
}

#[test]
fn attempts_try_each_address_once_in_order() {
    let mut a = MirrorAttempts::new(vec![s("u1"), s("u2")]);
    assert_eq!(a.current().as_deref(), Some("u1"));
    a.fail("timeout");
    assert_eq!(a.current().as_deref(), Some("u2"));
    a.fail("404");
    assert!(a.current().is_none());
    assert_eq!(a.exhausted("无法获取最新 release: ").0, "无法获取最新 release: u2: 404");
    let empty = MirrorAttempts::new(vec![]);
    assert!(empty.current().is_none());
    assert_eq!(empty.exhausted("下载更新包失败: ").0, "下载更新包失败: 没有可用下载地址");
}
