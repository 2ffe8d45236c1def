//! A companion daemon: installed from its GitHub releases (checked against
//! the published SHA-256 digest), started, stopped and its log kept short.
use vstd::prelude::*;
use crate::device::update::{
    build_mirror_urls, first_with_both, is_newer_version,
    lemma_first_with_both, mirror_url_list, mirrors_from_setting, mirrors_setting, newer_version,
    opt_text, release_page, release_page_url, string_or, value_or, AssetJson,
    AssetJsonView, ReleaseJson, ReleaseJsonView, UpdateError,
};
use crate::numeric::{decimal, parse_u32, parse_unsigned, parse_usize, push_decimal};
use crate::text::{
    chars_of, chars_of_strings, contains_chars, contains_seq, eq_chars, join, join_from,
    join_strings, join_with, lines, lines_of, print_line, push_all, push_str, slice_of,
    split_chars, split_on, split_words, starts_with, starts_with_chars, string_of, strings_of,
    trim, trim_str, words,
};

verus! {

/// `dir` joined with `name` as `Path::join` does: an absolute name
/// replaces the directory; else the two are put together with one `/`.
pub open spec fn path_join(dir: Seq<char>, name: Seq<char>) -> Seq<char> {
    if name.len() > 0 && name[0] == '/' {
        name
    } else if dir.len() == 0 {
        name
    } else if dir.last() == '/' {
        dir + name
    } else {
        dir + "/"@ + name
    }
}

pub fn join_path(dir: &str, name: &str) -> (p: String)
    ensures
        p@ == path_join(dir@, name@),
{
    let d = chars_of(dir);
    let n = chars_of(name);
    proof {
        reveal_strlit("/");
    }
    if n.len() > 0 && n[0] == '/' {
        return string_of(&n);
    }
    if d.len() == 0 {
        return string_of(&n);
    }
    let mut v = d;
    if v[v.len() - 1] != '/' {
        v.push('/');
    }
    push_all(&mut v, &n);
    assert("/"@ =~= seq!['/']);
    proof {
        if d@.last() != '/' {
            assert(v@ =~= dir@ + "/"@ + name@);
        } else {
            assert(v@ =~= dir@ + name@);
        }
    }
    string_of(&v)
}

/// The largest number of log lines kept by default.
pub const DEFAULT_LOG_MAX_LINES: usize = 2000;

/// `DAEMON_LOG_MAX_LINES` read as a number above zero, else the default.
pub open spec fn log_max_lines_setting(value: Option<Seq<char>>) -> usize {
    match value {
        Some(v) => match parse_unsigned(v, 10, usize::MAX as nat) {
            Some(n) => if n > 0 {
                n as usize
            } else {
                DEFAULT_LOG_MAX_LINES
            },
            None => DEFAULT_LOG_MAX_LINES,
        },
        None => DEFAULT_LOG_MAX_LINES,
    }
}

/// How to fetch, install and run the daemon.
#[derive(Clone)]
pub struct DaemonConfig {
    repo_owner: String,
    repo_name: String,
    asset_prefix: String,
    bin_name: String,
    target: String,
    github_api_url: String,
    mirrors: Vec<String>,
    install_dir: String,
    log_path: String,
    pid_path: String,
    version_path: String,
    log_max_lines: usize,
    args: Vec<String>,
}

pub struct DaemonConfigView {
    pub repo_owner: Seq<char>,
    pub repo_name: Seq<char>,
    pub asset_prefix: Seq<char>,
    pub bin_name: Seq<char>,
    pub target: Seq<char>,
    pub github_api_url: Seq<char>,
    pub mirrors: Seq<Seq<char>>,
    pub install_dir: Seq<char>,
    pub log_path: Seq<char>,
    pub pid_path: Seq<char>,
    pub version_path: Seq<char>,
    pub log_max_lines: usize,
    pub args: Seq<Seq<char>>,
}

impl View for DaemonConfig {
    type V = DaemonConfigView;

    closed spec fn view(&self) -> DaemonConfigView {
        DaemonConfigView {
            repo_owner: self.repo_owner@,
            repo_name: self.repo_name@,
            asset_prefix: self.asset_prefix@,
            bin_name: self.bin_name@,
            target: self.target@,
            github_api_url: self.github_api_url@,
            mirrors: self.mirrors@.map_values(|s: String| s@),
            install_dir: self.install_dir@,
            log_path: self.log_path@,
            pid_path: self.pid_path@,
            version_path: self.version_path@,
            log_max_lines: self.log_max_lines,
            args: self.args@.map_values(|s: String| s@),
        }
    }
}

/// The settings the daemon is configured from, each `None` when unset.
pub struct DaemonSettings {
    pub repo_owner: Option<String>,
    pub repo_name: Option<String>,
    pub asset_prefix: Option<String>,
    pub bin_name: Option<String>,
    pub target: Option<String>,
    pub github_api_url: Option<String>,
    pub mirrors: Option<String>,
    pub install_dir: Option<String>,
    pub log_path: Option<String>,
    pub pid_path: Option<String>,
    pub version_path: Option<String>,
    pub log_max_lines: Option<String>,
    pub args: Option<String>,
}

impl DaemonConfig {
    /// The configuration from the `DAEMON_*` settings, defaults in place of
    /// unset ones: the log, pid and version files default to files in the
    /// install directory, and the arguments are the words of `DAEMON_ARGS`.
    pub fn from_env_values(s: DaemonSettings) -> (c: DaemonConfig)
        ensures
            c@.repo_owner == value_or(s.repo_owner, "xin5683"@),
            c@.repo_name == value_or(s.repo_name, "udp_gw_builder"@),
            c@.asset_prefix == value_or(s.asset_prefix, "XPlaneUDP"@),
            c@.bin_name == value_or(s.bin_name, "XPlaneUDP"@),
            s.target matches Some(t) ==> c@.target == t@,
            c@.github_api_url == value_or(s.github_api_url, "https://api.github.com"@),
            c@.mirrors == mirrors_setting(opt_text(s.mirrors)),
            c@.install_dir == value_or(s.install_dir, "/opt/device_cfg/udp_gw"@),
            c@.log_path == value_or(s.log_path, path_join(c@.install_dir, "udp_gw_builder.log"@)),
            c@.pid_path == value_or(s.pid_path, path_join(c@.install_dir, "udp_gw_builder.pid"@)),
            c@.version_path == value_or(
                s.version_path,
                path_join(c@.install_dir, "udp_gw_builder.version.json"@),
            ),
            c@.log_max_lines == log_max_lines_setting(opt_text(s.log_max_lines)),
            c@.args == (match s.args {
                Some(a) => words(a@),
                None => Seq::<Seq<char>>::empty(),
            }),
    {
        let install_dir = string_or(s.install_dir, "/opt/device_cfg/udp_gw");
        let log_path = match s.log_path {
            Some(p) => p,
            None => join_path(install_dir.as_str(), "udp_gw_builder.log"),
        };
        let pid_path = match s.pid_path {
            Some(p) => p,
            None => join_path(install_dir.as_str(), "udp_gw_builder.pid"),
        };
        let version_path = match s.version_path {
            Some(p) => p,
            None => join_path(install_dir.as_str(), "udp_gw_builder.version.json"),
        };
        let mirrors = match &s.mirrors {
            Some(m) => mirrors_from_setting(Some(m.as_str())),
            None => mirrors_from_setting(None),
        };
        let log_max_lines = match &s.log_max_lines {
            Some(v) => match parse_usize(&chars_of(v.as_str())) {
                Some(n) => if n > 0 {
                    n
                } else {
                    DEFAULT_LOG_MAX_LINES
                },
                None => DEFAULT_LOG_MAX_LINES,
            },
            None => DEFAULT_LOG_MAX_LINES,
        };
        let args = match &s.args {
            Some(a) => strings_of(&split_words(&chars_of(a.as_str()))),
            None => Vec::new(),
        };
        proof {
            assert(args@.len() == 0 ==> args@.map_values(|x: String| x@) =~= Seq::<Seq<char>>::empty());
        }
        DaemonConfig {
            repo_owner: string_or(s.repo_owner, "xin5683"),
            repo_name: string_or(s.repo_name, "udp_gw_builder"),
            asset_prefix: string_or(s.asset_prefix, "XPlaneUDP"),
            bin_name: string_or(s.bin_name, "XPlaneUDP"),
            target: match s.target {
                Some(t) => t,
                None => crate::device::update::built_target(),
            },
            github_api_url: string_or(s.github_api_url, "https://api.github.com"),
            mirrors,
            install_dir,
            log_path,
            pid_path,
            version_path,
            log_max_lines,
            args,
        }
    }

    /// Where the daemon's executable is installed.
    pub fn executable_path(&self) -> (p: String)
        ensures
            p@ == path_join(self@.install_dir, self@.bin_name),
    {
        join_path(self.install_dir.as_str(), self.bin_name.as_str())
    }

    pub fn install_dir(&self) -> (r: &str)
        ensures
            r@ == self@.install_dir,
    {
        self.install_dir.as_str()
    }

    pub fn log_path(&self) -> (r: &str)
        ensures
            r@ == self@.log_path,
    {
        self.log_path.as_str()
    }

    pub fn pid_path(&self) -> (r: &str)
        ensures
            r@ == self@.pid_path,
    {
        self.pid_path.as_str()
    }

    pub fn version_path(&self) -> (r: &str)
        ensures
            r@ == self@.version_path,
    {
        self.version_path.as_str()
    }

    pub fn bin_name(&self) -> (r: &str)
        ensures
            r@ == self@.bin_name,
    {
        self.bin_name.as_str()
    }

    pub fn target(&self) -> (r: &str)
        ensures
            r@ == self@.target,
    {
        self.target.as_str()
    }

    pub fn log_max_lines(&self) -> (r: usize)
        ensures
            r == self@.log_max_lines,
    {
        self.log_max_lines
    }

    pub fn args(&self) -> (r: &Vec<String>)
        ensures
            r@.map_values(|s: String| s@) == self@.args,
    {
        &self.args
    }

    pub fn mirrors(&self) -> (r: &Vec<String>)
        ensures
            r@.map_values(|s: String| s@) == self@.mirrors,
    {
        &self.mirrors
    }

    /// The line that describes the configuration.
    pub fn config_summary(&self) -> (s: String)
        ensures
            s@ == "守护进程配置: repo="@ + self@.repo_owner + "/"@ + self@.repo_name + ", asset_prefix="@
                + self@.asset_prefix + ", bin="@ + self@.bin_name + ", target="@ + self@.target
                + ", install_dir="@ + self@.install_dir + ", log="@ + self@.log_path
                + ", log_max_lines="@ + decimal(self@.log_max_lines as nat) + ", mirrors="@ + join(
                self@.mirrors,
                ',',
            ),
    {
        let mut v = chars_of("守护进程配置: repo=");
        push_str(&mut v, self.repo_owner.as_str());
        push_str(&mut v, "/");
        push_str(&mut v, self.repo_name.as_str());
        push_str(&mut v, ", asset_prefix=");
        push_str(&mut v, self.asset_prefix.as_str());
        push_str(&mut v, ", bin=");
        push_str(&mut v, self.bin_name.as_str());
        push_str(&mut v, ", target=");
        push_str(&mut v, self.target.as_str());
        push_str(&mut v, ", install_dir=");
        push_str(&mut v, self.install_dir.as_str());
        push_str(&mut v, ", log=");
        push_str(&mut v, self.log_path.as_str());
        push_str(&mut v, ", log_max_lines=");
        push_decimal(&mut v, self.log_max_lines as u64);
        push_str(&mut v, ", mirrors=");
        let ms = chars_of_strings(&self.mirrors);
        let joined = join_from(&ms, 0, ',');
        assert(ms.deep_view().subrange(0, ms.len() as int) =~= ms.deep_view());
        push_all(&mut v, &joined);
        string_of(&v)
    }

    /// Prints the configuration summary.
    pub fn print_config(&self) {
        let s = self.config_summary();
        print_line(s.as_str());
    }

    /// The addresses to fetch the daemon's latest release from, in order.
    pub fn release_api_urls(&self) -> (urls: Vec<String>)
        ensures
            urls@.map_values(|s: String| s@) == mirror_url_list(
                self@.mirrors,
                crate::device::update::latest_release_api(self@.github_api_url, self@.repo_owner, self@.repo_name),
            ),
    {
        let api = crate::device::update::latest_release_api_url(
            self.github_api_url.as_str(),
            self.repo_owner.as_str(),
            self.repo_name.as_str(),
        );
        build_mirror_urls(&self.mirrors, api.as_str())
    }
}

} // verus!

verus! {

#[derive(Debug, Clone)]
pub struct DaemonStatus {
    pub running: bool,
    pub pid: Option<u32>,
    pub installed: bool,
    pub installed_version: Option<String>,
    pub latest_known_version: Option<String>,
    pub target: String,
    pub executable_path: String,
    pub install_dir: String,
    pub log_path: String,
    pub pid_path: String,
    pub version_path: String,
}

#[derive(Debug, Clone)]
pub struct DaemonUpdateInfo {
    pub installed_version: Option<String>,
    pub latest_version: String,
    pub update_available: bool,
    pub target: String,
    pub asset_name: Option<String>,
    pub download_url: Option<String>,
    pub mirror_urls: Vec<String>,
    pub sha256: Option<String>,
    pub release_url: String,
    pub release_notes: Option<String>,
}

#[derive(Debug, Clone)]
pub struct DaemonInstallResult {
    pub previous_version: Option<String>,
    pub installed_version: String,
    pub target: String,
    pub asset_name: String,
    pub sha256: String,
    pub downloaded_from: String,
    pub installed_path: String,
}

#[derive(Debug, Clone)]
pub struct DaemonStartResult {
    pub running: bool,
    pub pid: u32,
    pub executable_path: String,
    pub log_path: String,
}

#[derive(Debug, Clone)]
pub struct DaemonLogInfo {
    pub path: String,
    pub lines: Vec<String>,
}

/// A file of a daemon release, with the SHA-256 digest GitHub publishes.
#[derive(Debug, Clone)]
pub struct DaemonAsset {
    pub name: String,
    pub download_url: String,
    pub sha256: Option<String>,
}

/// A daemon release: its version (the tag without leading `v`s), notes and files.
#[derive(Debug, Clone)]
pub struct DaemonRelease {
    pub version: String,
    pub body: Option<String>,
    pub assets: Vec<DaemonAsset>,
}

/// What is recorded of the installed daemon.
#[derive(Debug, Clone)]
pub struct InstalledVersion {
    pub version: String,
    pub target: String,
    pub asset_name: String,
    pub sha256: String,
}

pub struct DaemonAssetView {
    pub name: Seq<char>,
    pub download_url: Seq<char>,
    pub sha256: Option<Seq<char>>,
}

pub struct DaemonReleaseView {
    pub version: Seq<char>,
    pub body: Option<Seq<char>>,
    pub assets: Seq<DaemonAssetView>,
}

impl View for DaemonAsset {
    type V = DaemonAssetView;

    open spec fn view(&self) -> DaemonAssetView {
        DaemonAssetView { name: self.name@, download_url: self.download_url@, sha256: opt_text(self.sha256) }
    }
}

impl View for DaemonRelease {
    type V = DaemonReleaseView;

    open spec fn view(&self) -> DaemonReleaseView {
        DaemonReleaseView {
            version: self.version@,
            body: opt_text(self.body),
            assets: self.assets@.map_values(|a: DaemonAsset| a@),
        }
    }
}

/// The digest of a `sha256:<hex>` text: the hex part; none for another form.
pub open spec fn sha256_of_digest(digest: Option<Seq<char>>) -> Option<Seq<char>> {
    match digest {
        Some(d) => if starts_with(d, "sha256:"@) {
            Some(d.subrange(7, d.len() as int))
        } else {
            None
        },
        None => None,
    }
}

pub open spec fn daemon_asset_outcome(a: AssetJsonView) -> Result<DaemonAssetView, Seq<char>> {
    match (a.name, a.download_url) {
        (None, _) => Err("release asset 缺少 name"@),
        (Some(_), None) => Err("release asset 缺少 browser_download_url"@),
        (Some(n), Some(u)) => Ok(DaemonAssetView { name: n, download_url: u, sha256: sha256_of_digest(a.digest) }),
    }
}

pub open spec fn daemon_assets_outcome(assets: Seq<AssetJsonView>) -> Result<Seq<DaemonAssetView>, Seq<char>>
    decreases assets.len(),
{
    if assets.len() == 0 {
        Ok(seq![])
    } else {
        match daemon_assets_outcome(assets.drop_last()) {
            Err(e) => Err(e),
            Ok(prev) => match daemon_asset_outcome(assets.last()) {
                Err(e) => Err(e),
                Ok(a) => Ok(prev.push(a)),
            },
        }
    }
}

/// A daemon release read from the JSON: it needs a tag and a list of assets.
pub open spec fn daemon_release_outcome(j: ReleaseJsonView) -> Result<DaemonReleaseView, Seq<char>> {
    match (j.tag_name, j.assets) {
        (None, _) => Err("release 缺少 tag_name"@),
        (Some(_), None) => Err("release 缺少 assets"@),
        (Some(tag), Some(assets)) => match daemon_assets_outcome(assets) {
            Err(e) => Err(e),
            Ok(list) => Ok(
                DaemonReleaseView {
                    version: crate::text::trim_start_char(tag, 'v'),
                    body: j.body,
                    assets: list,
                },
            ),
        },
    }
}

/// Reading assets gives one asset for each, when it succeeds.
proof fn lemma_daemon_assets_len(assets: Seq<AssetJsonView>)
    ensures
        daemon_assets_outcome(assets) matches Ok(list) ==> list.len() == assets.len(),
    decreases assets.len(),
{
    if assets.len() > 0 {
        lemma_daemon_assets_len(assets.drop_last());
    }
}

/// A daemon release read from JSON keeps its notes: they are the JSON's
/// `body` unchanged; it needs a tag, its version is the tag without a
/// leading `v`, and it has one asset for each asset of the JSON.
pub proof fn law_daemon_release_keeps_json_fields(j: ReleaseJsonView)
    ensures
        daemon_release_outcome(j) matches Ok(r) ==> {
            &&& r.body == j.body
            &&& j.tag_name is Some
            &&& j.assets is Some
            &&& r.assets.len() == j.assets->0.len()
        },
{
    if let (Some(tag), Some(assets)) = (j.tag_name, j.assets) {
        lemma_daemon_assets_len(assets);
    }
}

fn clone_opt(o: &Option<String>) -> (r: Option<String>)
    ensures
        opt_text(r) == opt_text(*o),
{
    match o {
        Some(s) => Some(s.clone()),
        None => None,
    }
}

fn digest_sha256(digest: &Option<String>) -> (r: Option<String>)
    ensures
        opt_text(r) == sha256_of_digest(opt_text(*digest)),
{
    match digest {
        Some(d) => {
            let v = chars_of(d.as_str());
            if starts_with_chars(&v, &chars_of("sha256:")) {
                proof {
                    reveal_strlit("sha256:");
                }
                Some(string_of(&slice_of(&v, 7, v.len())))
            } else {
                None
            }
        },
        None => None,
    }
}

fn asset_from_json(a: &AssetJson) -> (r: Result<DaemonAsset, UpdateError>)
    ensures
        match r {
            Ok(x) => daemon_asset_outcome(a@) == Ok::<DaemonAssetView, Seq<char>>(x@),
            Err(e) => daemon_asset_outcome(a@) == Err::<DaemonAssetView, Seq<char>>(e.0@),
        },
{
    match (&a.name, &a.browser_download_url) {
        (None, _) => Err(UpdateError(String::from_str("release asset 缺少 name"))),
        (Some(_), None) => Err(UpdateError(String::from_str("release asset 缺少 browser_download_url"))),
        (Some(n), Some(u)) => Ok(DaemonAsset { name: n.clone(), download_url: u.clone(), sha256: digest_sha256(&a.digest) }),
    }
}

proof fn lemma_daemon_assets_prefix_err(av: Seq<AssetJsonView>, k: int)
    requires
        0 <= k <= av.len(),
        daemon_assets_outcome(av.subrange(0, k)) is Err,
    ensures
        daemon_assets_outcome(av) == daemon_assets_outcome(av.subrange(0, k)),
    decreases av.len() - k,
{
    if k < av.len() {
        assert(av.subrange(0, k + 1).drop_last() =~= av.subrange(0, k));
        lemma_daemon_assets_prefix_err(av, k + 1);
    } else {
        assert(av.subrange(0, k) =~= av);
    }
}

/// The daemon release that the JSON describes, or what it lacks.
pub fn release_from_json(json: &ReleaseJson) -> (r: Result<DaemonRelease, UpdateError>)
    ensures
        match r {
            Ok(x) => daemon_release_outcome(json@) == Ok::<DaemonReleaseView, Seq<char>>(x@),
            Err(e) => daemon_release_outcome(json@) == Err::<DaemonReleaseView, Seq<char>>(e.0@),
        },
{
    let tag = match &json.tag_name {
        Some(t) => t,
        None => return Err(UpdateError(String::from_str("release 缺少 tag_name"))),
    };
    let assets_json = match &json.assets {
        Some(a) => a,
        None => return Err(UpdateError(String::from_str("release 缺少 assets"))),
    };
    let ghost av = assets_json@.map_values(|a: AssetJson| a@);
    assert(json@.assets == Some(av));
    let mut assets: Vec<DaemonAsset> = Vec::new();
    let mut i: usize = 0;
    assert(av.subrange(0, 0) =~= Seq::<AssetJsonView>::empty());
    assert(assets@.map_values(|a: DaemonAsset| a@) =~= Seq::<DaemonAssetView>::empty());
    while i < assets_json.len()
        invariant
            i <= assets_json.len(),
            av == assets_json@.map_values(|a: AssetJson| a@),
            json@.assets == Some(av),
            json.tag_name is Some,
            daemon_assets_outcome(av.subrange(0, i as int)) == Ok::<Seq<DaemonAssetView>, Seq<char>>(
                assets@.map_values(|a: DaemonAsset| a@),
            ),
        decreases assets_json.len() - i,
    {
        assert(av.subrange(0, i + 1).drop_last() =~= av.subrange(0, i as int));
        assert(av.subrange(0, i + 1).last() == assets_json@[i as int]@);
        match asset_from_json(&assets_json[i]) {
            Ok(x) => {
                let ghost before = assets@.map_values(|a: DaemonAsset| a@);
                assets.push(x);
                assert(assets@.map_values(|a: DaemonAsset| a@) =~= before.push(x@));
            },
            Err(e) => {
                proof {
                    assert(daemon_assets_outcome(av.subrange(0, i + 1)) == Err::<
                        Seq<DaemonAssetView>,
                        Seq<char>,
                    >(e.0@));
                    lemma_daemon_assets_prefix_err(av, i as int + 1);
                }
                return Err(e);
            },
        }
        i += 1;
    }
    assert(av.subrange(0, assets_json.len() as int) =~= av);
    let version = string_of(&crate::text::trim_start_chars(&chars_of(tag.as_str()), 'v'));
    Ok(DaemonRelease { version, body: clone_opt(&json.body), assets })
}

} // verus!

verus! {

/// The names of the daemon's assets.
pub open spec fn daemon_asset_names(assets: Seq<DaemonAssetView>) -> Seq<Seq<char>> {
    assets.map_values(|a: DaemonAssetView| a.name)
}

/// The daemon's asset for the target: the first whose name holds both the
/// asset prefix and the target.
pub open spec fn daemon_asset_index(assets: Seq<DaemonAssetView>, prefix: Seq<char>, target: Seq<char>) -> int {
    first_with_both(daemon_asset_names(assets), prefix, target)
}

fn daemon_asset_name_chars(assets: &Vec<DaemonAsset>) -> (out: Vec<Vec<char>>)
    ensures
        out.deep_view() == daemon_asset_names(assets@.map_values(|a: DaemonAsset| a@)),
        out@.len() == assets@.len(),
{
    let mut out: Vec<Vec<char>> = Vec::new();
    let mut i: usize = 0;
    let ghost av = assets@.map_values(|a: DaemonAsset| a@);
    while i < assets.len()
        invariant
            i <= assets.len(),
            av == assets@.map_values(|a: DaemonAsset| a@),
            out@.len() == i,
            out.deep_view() == daemon_asset_names(av.subrange(0, i as int)),
        decreases assets.len() - i,
    {
        let ghost before = out.deep_view();
        let c = chars_of(assets[i].name.as_str());
        out.push(c);
        assert(c.deep_view() =~= c@);
        assert(out.deep_view() =~= before.push(c@));
        assert(daemon_asset_names(av.subrange(0, i + 1)) =~= daemon_asset_names(av.subrange(0, i as int)).push(
            av[i as int].name,
        ));
        i += 1;
    }
    assert(av.subrange(0, assets.len() as int) =~= av);
    out
}

fn clone_daemon_asset(a: &DaemonAsset) -> (r: DaemonAsset)
    ensures
        r@ == a@,
{
    DaemonAsset { name: a.name.clone(), download_url: a.download_url.clone(), sha256: clone_opt(&a.sha256) }
}

/// The daemon's asset for the configured target.
pub fn find_target_asset(config: &DaemonConfig, release: &DaemonRelease) -> (a: Option<DaemonAsset>)
    ensures
        match a {
            Some(x) => {
                let k = daemon_asset_index(release@.assets, config@.asset_prefix, config@.target);
                k >= 0 && x@ == release@.assets[k]
            },
            None => daemon_asset_index(release@.assets, config@.asset_prefix, config@.target) < 0,
        },
{
    let names = daemon_asset_name_chars(&release.assets);
    let ghost nv = names.deep_view();
    let p = chars_of(config.asset_prefix.as_str());
    let t = chars_of(config.target.as_str());
    proof {
        crate::text::lemma_deep_chars(names);
        lemma_first_with_both(nv, p@, t@);
    }
    let mut i: usize = 0;
    while i < names.len()
        invariant
            i <= names.len(),
            nv == names.deep_view(),
            nv == daemon_asset_names(release@.assets),
            p@ == config@.asset_prefix,
            t@ == config@.target,
            nv.len() == names@.len(),
            names@.len() == release.assets@.len(),
            forall|j: int| 0 <= j < names@.len() ==> #[trigger] nv[j] == names@[j]@,
            forall|j: int| 0 <= j < i ==> !(contains_seq(#[trigger] nv[j], p@) && contains_seq(nv[j], t@)),
        decreases names.len() - i,
    {
        if contains_chars(&names[i], &p) && contains_chars(&names[i], &t) {
            proof {
                lemma_first_with_both(nv, p@, t@);
                assert(nv[i as int] == names@[i as int]@);
                assert(first_with_both(nv, p@, t@) == i);
                assert(release@.assets[i as int] == release.assets@[i as int]@);
            }
            return Some(clone_daemon_asset(&release.assets[i]));
        }
        i += 1;
    }
    proof {
        lemma_first_with_both(nv, p@, t@);
        if first_with_both(nv, p@, t@) >= 0 {
            let f = first_with_both(nv, p@, t@);
            assert(contains_seq(nv[f], p@) && contains_seq(nv[f], t@));
        }
    }
    None
}

/// What the latest daemon release offers: newer when nothing is installed
/// or the installed version is older, its asset for the target, where to
/// download it and its published digest.
pub fn build_update_info(config: &DaemonConfig, release: &DaemonRelease, installed: Option<&str>) -> (info: DaemonUpdateInfo)
    ensures
        opt_text(info.installed_version) == (match installed {
            Some(v) => Some(v@),
            None => None,
        }),
        info.latest_version@ == release@.version,
        info.update_available == (match installed {
            Some(v) => newer_version(v@, release@.version),
            None => true,
        }),
        info.target@ == config@.target,
        ({
            let k = daemon_asset_index(release@.assets, config@.asset_prefix, config@.target);
            if k >= 0 {
                &&& opt_text(info.asset_name) == Some(release@.assets[k].name)
                &&& opt_text(info.download_url) == Some(release@.assets[k].download_url)
                &&& info.mirror_urls@.map_values(|s: String| s@) == mirror_url_list(
                    config@.mirrors,
                    release@.assets[k].download_url,
                )
                &&& opt_text(info.sha256) == release@.assets[k].sha256
            } else {
                &&& info.asset_name is None
                &&& info.download_url is None
                &&& info.mirror_urls@.len() == 0
                &&& info.sha256 is None
            }
        }),
        info.release_url@ == release_page(config@.repo_owner, config@.repo_name, release@.version),
        opt_text(info.release_notes) == release@.body,
{
    let asset = find_target_asset(config, release);
    let update_available = match installed {
        Some(v) => is_newer_version(v, release.version.as_str()),
        None => true,
    };
    let (asset_name, download_url, urls, sha256) = match &asset {
        Some(a) => (
            Some(a.name.clone()),
            Some(a.download_url.clone()),
            build_mirror_urls(&config.mirrors, a.download_url.as_str()),
            clone_opt(&a.sha256),
        ),
        None => (None, None, Vec::new(), None),
    };
    DaemonUpdateInfo {
        installed_version: match installed {
            Some(v) => Some(String::from_str(v)),
            None => None,
        },
        latest_version: release.version.clone(),
        update_available,
        target: config.target.clone(),
        asset_name,
        download_url,
        mirror_urls: urls,
        sha256,
        release_url: release_page_url(config.repo_owner.as_str(), config.repo_name.as_str(), release.version.as_str()),
        release_notes: clone_opt(&release.body),
    }
}

/// Whether an install may replace what is there (`Pull`) or only a
/// version that is older (`Upgrade`).
#[derive(PartialEq, Eq, Structural, Clone, Copy)]
pub enum InstallMode {
    Pull,
    Upgrade,
}

/// What installing the latest daemon release takes: refused for an upgrade
/// when the installed version is not older; else its asset for the target,
/// the digest it must have, and the addresses to download it from.
pub open spec fn install_plan_outcome(
    config: DaemonConfigView,
    release: DaemonReleaseView,
    previous: Option<Seq<char>>,
    mode: InstallMode,
) -> Result<(DaemonAssetView, Seq<char>, Seq<Seq<char>>), Seq<char>> {
    let k = daemon_asset_index(release.assets, config.asset_prefix, config.target);
    if mode == InstallMode::Upgrade && previous is Some && !newer_version(previous->0, release.version) {
        Err("守护进程已是最新版本: v"@ + previous->0)
    } else if k < 0 {
        Err(
            "未找到匹配 target="@ + config.target + " 的守护进程 release asset，可用 assets: "@ + join_with(
                daemon_asset_names(release.assets),
                ", "@,
            ),
        )
    } else if release.assets[k].sha256 is None {
        Err("守护进程 release asset 缺少 GitHub sha256 digest: "@ + release.assets[k].name)
    } else {
        Ok(
            (
                release.assets[k],
                release.assets[k].sha256->0,
                mirror_url_list(config.mirrors, release.assets[k].download_url),
            ),
        )
    }
}

pub fn install_plan(
    config: &DaemonConfig,
    release: &DaemonRelease,
    previous: Option<&str>,
    mode: InstallMode,
) -> (r: Result<(DaemonAsset, String, Vec<String>), UpdateError>)
    ensures
        match r {
            Ok((a, sha, urls)) => install_plan_outcome(
                config@,
                release@,
                match previous {
                    Some(v) => Some(v@),
                    None => None,
                },
                mode,
            ) == Ok::<(DaemonAssetView, Seq<char>, Seq<Seq<char>>), Seq<char>>(
                (a@, sha@, urls@.map_values(|s: String| s@)),
            ),
            Err(e) => install_plan_outcome(
                config@,
                release@,
                match previous {
                    Some(v) => Some(v@),
                    None => None,
                },
                mode,
            ) == Err::<(DaemonAssetView, Seq<char>, Seq<Seq<char>>), Seq<char>>(e.0@),
        },
{
    if let InstallMode::Upgrade = mode {
        if let Some(v) = previous {
            if !is_newer_version(v, release.version.as_str()) {
                let mut msg = chars_of("守护进程已是最新版本: v");
                push_str(&mut msg, v);
                return Err(UpdateError(string_of(&msg)));
            }
        }
    }
    match find_target_asset(config, release) {
        None => {
            let names = daemon_asset_name_chars(&release.assets);
            let mut msg = chars_of("未找到匹配 target=");
            push_str(&mut msg, config.target.as_str());
            push_str(&mut msg, " 的守护进程 release asset，可用 assets: ");
            push_all(&mut msg, &join_strings(&names, ", "));
            Err(UpdateError(string_of(&msg)))
        },
        Some(a) => match &a.sha256 {
            None => {
                let mut msg = chars_of("守护进程 release asset 缺少 GitHub sha256 digest: ");
                push_str(&mut msg, a.name.as_str());
                Err(UpdateError(string_of(&msg)))
            },
            Some(sha) => {
                let expected = sha.clone();
                let urls = build_mirror_urls(&config.mirrors, a.download_url.as_str());
                Ok((a, expected, urls))
            },
        },
    }
}

/// `c` in lower case, for ASCII letters.
pub open spec fn ascii_lower(c: char) -> char {
    if 'A' <= c <= 'Z' {
        ((c as u32) + 32) as char
    } else {
        c
    }
}

/// `str::eq_ignore_ascii_case`.
pub open spec fn eq_ignore_ascii_case(a: Seq<char>, b: Seq<char>) -> bool {
    a.len() == b.len() && forall|i: int| 0 <= i < a.len() ==> ascii_lower(#[trigger] a[i]) == ascii_lower(b[i])
}

fn lower_char(c: char) -> (d: char)
    ensures
        d == ascii_lower(c),
{
    if 'A' <= c && c <= 'Z' {
        let u = (c as u32) + 32;
        let r = char_from_ascii(u);
        r
    } else {
        c
    }
}

fn char_from_ascii(u: u32) -> (c: char)
    requires
        97 <= u <= 122,
    ensures
        c == u as char,
{
    match u {
        97 => 'a',
        98 => 'b',
        99 => 'c',
        100 => 'd',
        101 => 'e',
        102 => 'f',
        103 => 'g',
        104 => 'h',
        105 => 'i',
        106 => 'j',
        107 => 'k',
        108 => 'l',
        109 => 'm',
        110 => 'n',
        111 => 'o',
        112 => 'p',
        113 => 'q',
        114 => 'r',
        115 => 's',
        116 => 't',
        117 => 'u',
        118 => 'v',
        119 => 'w',
        120 => 'x',
        121 => 'y',
        _ => 'z',
    }
}

fn eq_ignoring_case(a: &Vec<char>, e: &Vec<char>) -> (b: bool)
    ensures
        b == eq_ignore_ascii_case(a@, e@),
{
    if a.len() != e.len() {
        return false;
    }
    let mut i: usize = 0;
    while i < a.len()
        invariant
            i <= a.len(),
            a.len() == e.len(),
            forall|j: int| 0 <= j < i ==> ascii_lower(#[trigger] a@[j]) == ascii_lower(e@[j]),
        decreases a.len() - i,
    {
        if lower_char(a[i]) != lower_char(e[i]) {
            return false;
        }
        i += 1;
    }
    true
}

/// The downloaded archive's digest against the published one, letters in
/// either case.
pub fn verify_sha256(expected: &str, actual: &str) -> (r: Result<(), UpdateError>)
    ensures
        match r {
            Ok(()) => eq_ignore_ascii_case(actual@, expected@),
            Err(e) => !eq_ignore_ascii_case(actual@, expected@) && e.0@ == "守护进程更新包 SHA256 校验失败: expected="@
                + expected@ + " actual="@ + actual@,
        },
{
    let same = eq_ignoring_case(&chars_of(actual), &chars_of(expected));
    if same {
        Ok(())
    } else {
        let mut msg = chars_of("守护进程更新包 SHA256 校验失败: expected=");
        push_str(&mut msg, expected);
        push_str(&mut msg, " actual=");
        push_str(&mut msg, actual);
        Err(UpdateError(string_of(&msg)))
    }
}

} // verus!

verus! {

/// The record of an install: the release's version, the target, the
/// asset and the digest that was checked.
pub fn installed_record(config: &DaemonConfig, release: &DaemonRelease, asset: &DaemonAsset, sha256: &str) -> (v: InstalledVersion)
    ensures
        v.version@ == release@.version,
        v.target@ == config@.target,
        v.asset_name@ == asset@.name,
        v.sha256@ == sha256@,
{
    InstalledVersion {
        version: release.version.clone(),
        target: config.target.clone(),
        asset_name: asset.name.clone(),
        sha256: String::from_str(sha256),
    }
}

/// The outcome of an install.
pub fn install_result(
    config: &DaemonConfig,
    release: &DaemonRelease,
    asset: &DaemonAsset,
    previous: Option<String>,
    sha256: String,
    downloaded_from: String,
) -> (r: DaemonInstallResult)
    ensures
        opt_text(r.previous_version) == opt_text(previous),
        r.installed_version@ == release@.version,
        r.target@ == config@.target,
        r.asset_name@ == asset@.name,
        r.sha256@ == sha256@,
        r.downloaded_from@ == downloaded_from@,
        r.installed_path@ == path_join(config@.install_dir, config@.bin_name),
{
    DaemonInstallResult {
        previous_version: previous,
        installed_version: release.version.clone(),
        target: config.target.clone(),
        asset_name: asset.name.clone(),
        sha256,
        downloaded_from,
        installed_path: config.executable_path(),
    }
}

/// The daemon's status: running with `pid` when it has one, whether its
/// executable is there, and the installed version as recorded.
pub fn daemon_status(config: &DaemonConfig, pid: Option<u32>, installed: bool, version: Option<&InstalledVersion>) -> (st: DaemonStatus)
    ensures
        st.running == pid is Some,
        st.pid == pid,
        st.installed == installed,
        opt_text(st.installed_version) == (match version {
            Some(v) => Some(v.version@),
            None => None,
        }),
        opt_text(st.latest_known_version) == (match version {
            Some(v) => Some(v.version@),
            None => None,
        }),
        st.target@ == config@.target,
        st.executable_path@ == path_join(config@.install_dir, config@.bin_name),
        st.install_dir@ == config@.install_dir,
        st.log_path@ == config@.log_path,
        st.pid_path@ == config@.pid_path,
        st.version_path@ == config@.version_path,
{
    let installed_version = match version {
        Some(v) => Some(v.version.clone()),
        None => None,
    };
    let latest_known_version = match version {
        Some(v) => Some(v.version.clone()),
        None => None,
    };
    DaemonStatus {
        running: pid.is_some(),
        pid,
        installed,
        installed_version,
        latest_known_version,
        target: config.target.clone(),
        executable_path: config.executable_path(),
        install_dir: config.install_dir.clone(),
        log_path: config.log_path.clone(),
        pid_path: config.pid_path.clone(),
        version_path: config.version_path.clone(),
    }
}

/// What is known of the daemon process this service started itself.
#[derive(Debug, Clone, Copy, PartialEq, Eq, Structural)]
pub enum ChildState {
    /// No process was started, or it was already forgotten.
    Absent,
    /// The process with this id has not exited.
    Running(u32),
    /// The process has exited.
    Exited,
}

/// The outcome of looking for the running daemon: the process id to
/// report, whether the pid file is stale and to be removed, and whether the
/// exited child is to be forgotten.
#[derive(Debug, Clone, Copy, PartialEq, Eq, Structural)]
pub struct PidCheck {
    pub pid: Option<u32>,
    pub remove_pid_file: bool,
    pub forget_child: bool,
}

/// Looking for the running daemon: a live child is it; an exited child is
/// forgotten and its pid file removed. Without a child, the pid file names
/// it when that process runs the daemon's executable (`process_matches`);
/// a pid file that names another process is stale and removed.
pub open spec fn pid_check_of(child: ChildState, pid_file: Option<u32>, process_matches: bool) -> PidCheck {
    match child {
        ChildState::Running(p) => PidCheck { pid: Some(p), remove_pid_file: false, forget_child: false },
        ChildState::Exited => PidCheck { pid: None, remove_pid_file: true, forget_child: true },
        ChildState::Absent => match pid_file {
            Some(p) => if process_matches {
                PidCheck { pid: Some(p), remove_pid_file: false, forget_child: false }
            } else {
                PidCheck { pid: None, remove_pid_file: true, forget_child: false }
            },
            None => PidCheck { pid: None, remove_pid_file: false, forget_child: false },
        },
    }
}

/// Decides which process, if any, is the running daemon, from the state of
/// the child, the pid read from the pid file, and whether that process
/// runs the daemon's executable (only read when there is no child).
pub fn running_pid_decision(child: ChildState, pid_file: Option<u32>, process_matches: bool) -> (r: PidCheck)
    ensures
        r == pid_check_of(child, pid_file, process_matches),
{
    match child {
        ChildState::Running(p) => PidCheck { pid: Some(p), remove_pid_file: false, forget_child: false },
        ChildState::Exited => PidCheck { pid: None, remove_pid_file: true, forget_child: true },
        ChildState::Absent => match pid_file {
            Some(p) => {
                if process_matches {
                    PidCheck { pid: Some(p), remove_pid_file: false, forget_child: false }
                } else {
                    PidCheck { pid: None, remove_pid_file: true, forget_child: false }
                }
            },
            None => PidCheck { pid: None, remove_pid_file: false, forget_child: false },
        },
    }
}

/// The child and pid file that a check leaves behind.
pub open spec fn state_after_check(child: ChildState, pid_file: Option<u32>, r: PidCheck) -> (ChildState, Option<u32>) {
    (
        if r.forget_child { ChildState::Absent } else { child },
        if r.remove_pid_file { None } else { pid_file },
    )
}

/// Looking for the running daemon settles the state at once: a daemon
/// found running is left as it is (no pid file removed, no child
/// forgotten), and checking again on what the first check left finds the
/// same process, or again none, and removes nothing more. So starting a
/// running daemon again (`start_decision` with that pid) launches nothing
/// and reports the same pid.
pub proof fn law_pid_check_settles(child: ChildState, pid_file: Option<u32>, process_matches: bool)
    ensures
        ({
            let r = pid_check_of(child, pid_file, process_matches);
            let (c2, f2) = state_after_check(child, pid_file, r);
            let r2 = pid_check_of(c2, f2, process_matches);
            &&& r.pid is Some ==> !r.remove_pid_file && !r.forget_child
            &&& r2.pid == r.pid
            &&& !r2.remove_pid_file
            &&& !r2.forget_child
        }),
        child matches ChildState::Running(p) ==> pid_check_of(child, pid_file, process_matches).pid == Some(p),
{
}

/// What starting the daemon does: nothing when it runs already, fail when
/// it is not installed, else launch it.
pub enum StartDecision {
    AlreadyRunning(DaemonStartResult),
    NotInstalled(UpdateError),
    Launch,
}

/// The result of a start that leaves the daemon running as `pid`.
pub fn started(config: &DaemonConfig, pid: u32) -> (r: DaemonStartResult)
    ensures
        r.running,
        r.pid == pid,
        r.executable_path@ == path_join(config@.install_dir, config@.bin_name),
        r.log_path@ == config@.log_path,
{
    DaemonStartResult {
        running: true,
        pid,
        executable_path: config.executable_path(),
        log_path: config.log_path.clone(),
    }
}

pub fn start_decision(config: &DaemonConfig, running: Option<u32>, installed: bool) -> (d: StartDecision)
    ensures
        match d {
            StartDecision::AlreadyRunning(r) => running == Some(r.pid) && r.running
                && r.executable_path@ == path_join(config@.install_dir, config@.bin_name)
                && r.log_path@ == config@.log_path,
            StartDecision::NotInstalled(e) => running is None && !installed && e.0@ == "守护进程尚未安装: "@
                + path_join(config@.install_dir, config@.bin_name),
            StartDecision::Launch => running is None && installed,
        },
{
    match running {
        Some(pid) => StartDecision::AlreadyRunning(started(config, pid)),
        None => {
            if installed {
                StartDecision::Launch
            } else {
                let mut msg = chars_of("守护进程尚未安装: ");
                let exe = config.executable_path();
                push_str(&mut msg, exe.as_str());
                StartDecision::NotInstalled(UpdateError(string_of(&msg)))
            }
        },
    }
}

/// A pid file's contents: a trimmed `u32`.
pub open spec fn pid_of(text: Seq<char>) -> Option<u32> {
    match parse_unsigned(trim(text), 10, u32::MAX as nat) {
        Some(n) => Some(n as u32),
        None => None,
    }
}

pub fn parse_pid(text: &str) -> (p: Option<u32>)
    ensures
        p == pid_of(text@),
{
    parse_u32(&trim_str(text))
}

} // verus!

verus! {

/// The parts of a path that name something: no empty parts and no `.`.
pub open spec fn path_parts(ps: Seq<Seq<char>>) -> Seq<Seq<char>>
    decreases ps.len(),
{
    if ps.len() == 0 {
        seq![]
    } else {
        let prev = path_parts(ps.drop_last());
        if ps.last().len() > 0 && ps.last() != "."@ {
            prev.push(ps.last())
        } else {
            prev
        }
    }
}

/// `Path::file_name`: the last part of the path, none when there is none
/// or it is `..`.
pub open spec fn file_name_of(path: Seq<char>) -> Option<Seq<char>> {
    let parts = path_parts(split_on(path, '/'));
    if parts.len() == 0 {
        None
    } else if parts.last() == ".."@ {
        None
    } else {
        Some(parts.last())
    }
}

fn file_name_chars(path: &str) -> (r: Option<Vec<char>>)
    ensures
        match r {
            Some(v) => file_name_of(path@) == Some(v@),
            None => file_name_of(path@) is None,
        },
{
    let ps = split_chars(&chars_of(path), '/');
    let ghost pv = ps.deep_view();
    proof {
        crate::text::lemma_deep_chars(ps);
        reveal_strlit(".");
        reveal_strlit("..");
    }
    let dot = chars_of(".");
    let mut last: Option<usize> = None;
    let mut i: usize = 0;
    while i < ps.len()
        invariant
            i <= ps.len(),
            pv == ps.deep_view(),
            pv.len() == ps@.len(),
            forall|j: int| 0 <= j < ps@.len() ==> #[trigger] pv[j] == ps@[j]@,
            dot@ == "."@,
            match last {
                Some(k) => k < i && path_parts(pv.subrange(0, i as int)).len() > 0 && path_parts(
                    pv.subrange(0, i as int),
                ).last() == pv[k as int],
                None => path_parts(pv.subrange(0, i as int)).len() == 0,
            },
        decreases ps.len() - i,
    {
        assert(pv.subrange(0, i + 1).drop_last() =~= pv.subrange(0, i as int));
        assert(pv.subrange(0, i + 1).last() == pv[i as int]);
        if ps[i].len() > 0 && !eq_chars(&ps[i], &dot) {
            last = Some(i);
        }
        i += 1;
    }
    assert(pv.subrange(0, ps.len() as int) =~= pv);
    match last {
        None => None,
        Some(k) => {
            if eq_chars(&ps[k], &chars_of("..")) {
                None
            } else {
                Some(slice_of(&ps[k], 0, ps[k].len()))
            }
        },
    }
}

/// Whether the path's file name is `name`.
pub fn file_name_eq(path: &str, name: &str) -> (b: bool)
    ensures
        b == (file_name_of(path@) == Some(name@)),
{
    match file_name_chars(path) {
        Some(f) => eq_chars(&f, &chars_of(name)),
        None => false,
    }
}

/// Whether the path's file name starts with `name`.
pub fn file_name_starts_with(path: &str, name: &str) -> (b: bool)
    ensures
        b == (file_name_of(path@) matches Some(f) && starts_with(f, name@)),
{
    match file_name_chars(path) {
        Some(f) => starts_with_chars(&f, &chars_of(name)),
        None => false,
    }
}

/// A file found in an unpacked archive.
pub struct ExtractedFile {
    pub path: String,
    pub executable: bool,
}

/// The first index at which `p` holds, or -1.
pub open spec fn first_where<T>(s: Seq<T>, p: spec_fn(T) -> bool) -> int
    decreases s.len(),
{
    if s.len() == 0 {
        -1
    } else if p(s[0]) {
        0
    } else {
        let r = first_where(s.drop_first(), p);
        if r < 0 {
            -1
        } else {
            r + 1
        }
    }
}

pub proof fn lemma_first_where<T>(s: Seq<T>, p: spec_fn(T) -> bool)
    ensures
        -1 <= first_where(s, p) < s.len(),
        first_where(s, p) >= 0 ==> p(s[first_where(s, p)]),
        forall|j: int| 0 <= j < s.len() && (first_where(s, p) < 0 || j < first_where(s, p)) ==> !p(#[trigger] s[j]),
    decreases s.len(),
{
    if s.len() > 0 && !p(s[0]) {
        lemma_first_where(s.drop_first(), p);
        assert forall|j: int| 0 <= j < s.len() && (first_where(s, p) < 0 || j < first_where(s, p)) implies !p(
            #[trigger] s[j],
        ) by {
            if j > 0 {
                assert(s[j] == s.drop_first()[j - 1]);
            }
        }
    }
}

pub struct ExtractedFileView {
    pub path: Seq<char>,
    pub executable: bool,
}

pub open spec fn extracted_view(files: Seq<ExtractedFile>) -> Seq<ExtractedFileView> {
    files.map_values(|f: ExtractedFile| ExtractedFileView { path: f.path@, executable: f.executable })
}

/// The daemon's executable among the unpacked files: the first named
/// exactly like it, else the first whose name starts with its name, else
/// the first executable file.
pub open spec fn extracted_binary_index(files: Seq<ExtractedFileView>, bin: Seq<char>) -> int {
    let exact = first_where(files, |f: ExtractedFileView| file_name_of(f.path) == Some(bin));
    let prefixed = first_where(
        files,
        |f: ExtractedFileView| file_name_of(f.path) matches Some(n) && starts_with(n, bin),
    );
    let exe = first_where(files, |f: ExtractedFileView| f.executable);
    if exact >= 0 {
        exact
    } else if prefixed >= 0 {
        prefixed
    } else {
        exe
    }
}

pub fn find_extracted_binary(files: &Vec<ExtractedFile>, bin_name: &str) -> (r: Result<String, UpdateError>)
    ensures
        match r {
            Ok(p) => {
                let k = extracted_binary_index(extracted_view(files@), bin_name@);
                k >= 0 && p@ == extracted_view(files@)[k].path
            },
            Err(e) => extracted_binary_index(extracted_view(files@), bin_name@) < 0 && e.0@
                == "解压后未找到守护进程可执行文件: "@ + bin_name@,
        },
{
    let ghost fv = extracted_view(files@);
    let ghost bin = bin_name@;
    let ghost p_exact = |f: ExtractedFileView| file_name_of(f.path) == Some(bin);
    let ghost p_prefix = |f: ExtractedFileView| file_name_of(f.path) matches Some(n) && starts_with(n, bin);
    let ghost p_exe = |f: ExtractedFileView| f.executable;
    proof {
        lemma_first_where(fv, p_exact);
        lemma_first_where(fv, p_prefix);
        lemma_first_where(fv, p_exe);
    }
    let mut i: usize = 0;
    while i < files.len()
        invariant
            i <= files.len(),
            fv == extracted_view(files@),
            bin == bin_name@,
            p_exact == (|f: ExtractedFileView| file_name_of(f.path) == Some(bin)),
            forall|j: int| 0 <= j < i ==> !p_exact(#[trigger] fv[j]),
        decreases files.len() - i,
    {
        if file_name_eq(files[i].path.as_str(), bin_name) {
            proof {
                lemma_first_where(fv, p_exact);
                assert(p_exact(fv[i as int]));
            }
            return Ok(files[i].path.clone());
        }
        i += 1;
    }
    let mut k: usize = 0;
    while k < files.len()
        invariant
            k <= files.len(),
            fv == extracted_view(files@),
            bin == bin_name@,
            p_exact == (|f: ExtractedFileView| file_name_of(f.path) == Some(bin)),
            p_prefix == (|f: ExtractedFileView| file_name_of(f.path) matches Some(n) && starts_with(n, bin)),
            forall|j: int| 0 <= j < files.len() ==> !p_exact(#[trigger] fv[j]),
            forall|j: int| 0 <= j < k ==> !p_prefix(#[trigger] fv[j]),
        decreases files.len() - k,
    {
        if file_name_starts_with(files[k].path.as_str(), bin_name) {
            proof {
                lemma_first_where(fv, p_exact);
                lemma_first_where(fv, p_prefix);
                if first_where(fv, p_exact) >= 0 {
                    assert(p_exact(fv[first_where(fv, p_exact)]));
                }
                assert(p_prefix(fv[k as int]));
            }
            return Ok(files[k].path.clone());
        }
        k += 1;
    }
    let mut m: usize = 0;
    while m < files.len()
        invariant
            m <= files.len(),
            fv == extracted_view(files@),
            bin == bin_name@,
            p_exact == (|f: ExtractedFileView| file_name_of(f.path) == Some(bin)),
            p_prefix == (|f: ExtractedFileView| file_name_of(f.path) matches Some(n) && starts_with(n, bin)),
            p_exe == (|f: ExtractedFileView| f.executable),
            forall|j: int| 0 <= j < files.len() ==> !p_exact(#[trigger] fv[j]),
            forall|j: int| 0 <= j < files.len() ==> !p_prefix(#[trigger] fv[j]),
            forall|j: int| 0 <= j < m ==> !p_exe(#[trigger] fv[j]),
        decreases files.len() - m,
    {
        if files[m].executable {
            proof {
                lemma_first_where(fv, p_exact);
                lemma_first_where(fv, p_prefix);
                lemma_first_where(fv, p_exe);
                if first_where(fv, p_exact) >= 0 {
                    assert(p_exact(fv[first_where(fv, p_exact)]));
                }
                if first_where(fv, p_prefix) >= 0 {
                    assert(p_prefix(fv[first_where(fv, p_prefix)]));
                }
                assert(p_exe(fv[m as int]));
            }
            return Ok(files[m].path.clone());
        }
        m += 1;
    }
    proof {
        lemma_first_where(fv, p_exact);
        lemma_first_where(fv, p_prefix);
        lemma_first_where(fv, p_exe);
        if first_where(fv, p_exact) >= 0 {
            assert(p_exact(fv[first_where(fv, p_exact)]));
        }
        if first_where(fv, p_prefix) >= 0 {
            assert(p_prefix(fv[first_where(fv, p_prefix)]));
        }
        if first_where(fv, p_exe) >= 0 {
            assert(p_exe(fv[first_where(fv, p_exe)]));
        }
    }
    let mut msg = chars_of("解压后未找到守护进程可执行文件: ");
    push_str(&mut msg, bin_name);
    Err(UpdateError(string_of(&msg)))
}

} // verus!

verus! {

/// The last `n` items (all of them when there are fewer).
pub open spec fn tail_of<T>(s: Seq<T>, n: nat) -> Seq<T> {
    if s.len() <= n {
        s
    } else {
        s.subrange(s.len() - n, s.len() as int)
    }
}

/// How many log lines a request gets: at least one, at most the largest
/// number kept (itself at least one).
pub open spec fn log_limit(requested: usize, max_lines: usize) -> usize {
    let m: usize = if max_lines < 1 { 1 } else { max_lines };
    if requested < 1 {
        1
    } else if requested > m {
        m
    } else {
        requested
    }
}

pub fn log_line_limit(requested: usize, max_lines: usize) -> (n: usize)
    ensures
        n == log_limit(requested, max_lines),
        1 <= n,
{
    let m = if max_lines < 1 { 1 } else { max_lines };
    if requested < 1 {
        1
    } else if requested > m {
        m
    } else {
        requested
    }
}

fn tail_pieces(ls: &Vec<Vec<char>>, n: usize) -> (out: Vec<Vec<char>>)
    ensures
        out.deep_view() == tail_of(ls.deep_view(), n as nat),
{
    let start: usize = if ls.len() <= n { 0 } else { ls.len() - n };
    let mut out: Vec<Vec<char>> = Vec::new();
    let mut i = start;
    let ghost lv = ls.deep_view();
    proof {
        crate::text::lemma_deep_chars(*ls);
    }
    while i < ls.len()
        invariant
            start <= i <= ls.len(),
            lv == ls.deep_view(),
            lv.len() == ls@.len(),
            forall|j: int| 0 <= j < ls@.len() ==> #[trigger] lv[j] == ls@[j]@,
            out.deep_view() == lv.subrange(start as int, i as int),
        decreases ls.len() - i,
    {
        let ghost before = out.deep_view();
        let c = slice_of(&ls[i], 0, ls[i].len());
        assert(ls@[i as int]@.subrange(0, ls@[i as int]@.len() as int) =~= ls@[i as int]@);
        out.push(c);
        assert(c.deep_view() =~= c@);
        assert(out.deep_view() =~= before.push(lv[i as int]));
        assert(lv.subrange(start as int, i + 1) =~= lv.subrange(start as int, i as int).push(lv[i as int]));
        i += 1;
    }
    if ls.len() <= n {
        assert(lv.subrange(0, lv.len() as int) =~= lv);
    }
    out
}

/// The daemon's log for a request of `requested` lines: the last lines of
/// its contents, none when there is no log file (`content` is `None`).
pub fn log_info(config: &DaemonConfig, requested: usize, content: Option<&str>) -> (info: DaemonLogInfo)
    ensures
        info.path@ == config@.log_path,
        info.lines@.map_values(|s: String| s@) == (match content {
            Some(t) => tail_of(lines(t@), log_limit(requested, config@.log_max_lines) as nat),
            None => Seq::<Seq<char>>::empty(),
        }),
{
    let n = log_line_limit(requested, config.log_max_lines);
    let out = match content {
        Some(t) => strings_of(&tail_pieces(&lines_of(t), n)),
        None => Vec::new(),
    };
    proof {
        assert(out@.len() == 0 ==> out@.map_values(|s: String| s@) =~= Seq::<Seq<char>>::empty());
    }
    DaemonLogInfo { path: config.log_path.clone(), lines: out }
}

/// The log after trimming it to its last `max_lines` lines, joined by line
/// breaks and ended by one; none when it holds no more lines than that
/// (or no limit is set) and is left as it is.
pub open spec fn trimmed_log_of(text: Seq<char>, max_lines: usize) -> Option<Seq<char>> {
    let ls = lines(text);
    if max_lines == 0 || ls.len() <= max_lines {
        None
    } else {
        Some(join(tail_of(ls, max_lines as nat), '\n').push('\n'))
    }
}

pub fn trimmed_log(text: &str, max_lines: usize) -> (r: Option<String>)
    ensures
        opt_text(r) == trimmed_log_of(text@, max_lines),
{
    let ls = lines_of(text);
    if max_lines == 0 || ls.len() <= max_lines {
        return None;
    }
    let t = tail_pieces(&ls, max_lines);
    let mut body = join_from(&t, 0, '\n');
    assert(t.deep_view().subrange(0, t.len() as int) =~= t.deep_view());
    body.push('\n');
    Some(string_of(&body))
}

} // verus!

verus! {

/// Trimming the log keeps its last `max_lines` lines: the trimmed log reads
/// back as exactly those lines (each without a carriage return that ended
/// it, which reading takes as part of its line break).
pub proof fn law_trimmed_log_keeps_last_lines(text: Seq<char>, max_lines: usize)
    requires
        max_lines > 0,
        lines(text).len() > max_lines,
    ensures
        trimmed_log_of(text, max_lines) is Some,
        lines(trimmed_log_of(text, max_lines)->0) == tail_of(lines(text), max_lines as nat).map_values(
            |l: Seq<char>| crate::text::strip_cr(l),
        ),
{
    let ls = lines(text);
    let t = tail_of(ls, max_lines as nat);
    crate::text::lemma_join_newline_unlines(t);
    crate::text::lemma_lines_no_newline(text);
    assert forall|i: int| 0 <= i < t.len() implies crate::text::no_newline(#[trigger] t[i]) by {
        assert(t[i] == ls[ls.len() - max_lines + i]);
    }
    crate::text::lemma_lines_unlines(t);
}

} // verus!
