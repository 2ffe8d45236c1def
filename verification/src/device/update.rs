//! Updating the program from its GitHub releases, through download mirrors.
use vstd::prelude::*;
use crate::numeric::{all_digits, digits_value};
use crate::text::{
    chars_of, chars_of_strings, contains_chars, contains_seq, join, join_from, nonblank_pieces,
    nonblank_trimmed, print_line, push_all, push_str, split_chars, split_on, string_of,
    strings_of,
};

verus! {

/// The mirrors used when none are configured.
pub open spec fn default_mirror_list() -> Seq<Seq<char>> {
    seq![
        "https://gh-proxy.org"@,
        "https://gh.monlor.com"@,
        "https://ghproxy.monkeyray.net"@,
        "https://ghfast.top"@,
        "https://cors.isteed.cc"@,
        "https://cdn.crashmc.com"@,
        "https://gh.jasonzeng.dev"@,
    ]
}

pub fn default_mirrors() -> (m: Vec<String>)
    ensures
        m@.map_values(|s: String| s@) == default_mirror_list(),
{
    let mut m: Vec<String> = Vec::new();
    m.push(String::from_str("https://gh-proxy.org"));
    m.push(String::from_str("https://gh.monlor.com"));
    m.push(String::from_str("https://ghproxy.monkeyray.net"));
    m.push(String::from_str("https://ghfast.top"));
    m.push(String::from_str("https://cors.isteed.cc"));
    m.push(String::from_str("https://cdn.crashmc.com"));
    m.push(String::from_str("https://gh.jasonzeng.dev"));
    assert(m@.map_values(|s: String| s@) =~= default_mirror_list());
    m
}

/// The mirror list that a comma-separated setting gives: its entries
/// trimmed, blank ones left out, and the defaults when unset or when no
/// entry is left.
pub open spec fn mirrors_setting(value: Option<Seq<char>>) -> Seq<Seq<char>> {
    match value {
        Some(v) => {
            let l = nonblank_trimmed(split_on(v, ','));
            if l.len() > 0 {
                l
            } else {
                default_mirror_list()
            }
        },
        None => default_mirror_list(),
    }
}

pub fn mirrors_from_setting(value: Option<&str>) -> (m: Vec<String>)
    ensures
        m@.map_values(|s: String| s@) == mirrors_setting(
            match value {
                Some(v) => Some(v@),
                None => None,
            },
        ),
{
    match value {
        Some(v) => {
            let l = nonblank_pieces(&split_chars(&chars_of(v), ','));
            if l.len() > 0 {
                strings_of(&l)
            } else {
                default_mirrors()
            }
        },
        None => default_mirrors(),
    }
}

/// `self_update::get_target`: the target triple that the program was
/// built for. It is fixed when the program is built; nothing is stated of it.
#[verifier::external_body]
pub(crate) fn built_target() -> (t: String) {
    self_update::get_target().to_string()
}

/// A setting's value, or its default when it is unset.
pub open spec fn value_or(value: Option<String>, default: Seq<char>) -> Seq<char> {
    match value {
        Some(v) => v@,
        None => default,
    }
}

pub(crate) fn string_or(value: Option<String>, default: &str) -> (s: String)
    ensures
        s@ == value_or(value, default@),
{
    match value {
        Some(v) => v,
        None => String::from_str(default),
    }
}

/// Where updates come from and what is being updated.
#[derive(Clone)]
pub struct UpdateConfig {
    repo_owner: String,
    repo_name: String,
    bin_name: String,
    current_version: String,
    target: String,
    github_api_url: String,
    mirrors: Vec<String>,
}

pub struct UpdateConfigView {
    pub repo_owner: Seq<char>,
    pub repo_name: Seq<char>,
    pub bin_name: Seq<char>,
    pub current_version: Seq<char>,
    pub target: Seq<char>,
    pub github_api_url: Seq<char>,
    pub mirrors: Seq<Seq<char>>,
}

impl View for UpdateConfig {
    type V = UpdateConfigView;

    closed spec fn view(&self) -> UpdateConfigView {
        UpdateConfigView {
            repo_owner: self.repo_owner@,
            repo_name: self.repo_name@,
            bin_name: self.bin_name@,
            current_version: self.current_version@,
            target: self.target@,
            github_api_url: self.github_api_url@,
            mirrors: self.mirrors@.map_values(|s: String| s@),
        }
    }
}

impl UpdateConfig {
    /// The configuration from `UPDATE_REPO_OWNER`, `UPDATE_REPO_NAME`,
    /// `UPDATE_BIN_NAME`, `UPDATE_TARGET`, `UPDATE_GITHUB_API_URL` and
    /// `UPDATE_MIRRORS`, defaults in place of unset ones (the target
    /// defaults to the one the program was built for), and the version of
    /// the running program.
    pub fn from_env_values(
        repo_owner: Option<String>,
        repo_name: Option<String>,
        bin_name: Option<String>,
        current_version: &str,
        target: Option<String>,
        github_api_url: Option<String>,
        mirrors: Option<String>,
    ) -> (c: UpdateConfig)
        ensures
            c@.repo_owner == value_or(repo_owner, "xin5683"@),
            c@.repo_name == value_or(repo_name, "device_cfg"@),
            c@.bin_name == value_or(bin_name, "device_cfg"@),
            c@.current_version == current_version@,
            target matches Some(t) ==> c@.target == t@,
            c@.github_api_url == value_or(github_api_url, "https://api.github.com"@),
            c@.mirrors == mirrors_setting(
                match mirrors {
                    Some(m) => Some(m@),
                    None => None,
                },
            ),
    {
        let mirror_list = match &mirrors {
            Some(m) => mirrors_from_setting(Some(m.as_str())),
            None => mirrors_from_setting(None),
        };
        UpdateConfig {
            repo_owner: string_or(repo_owner, "xin5683"),
            repo_name: string_or(repo_name, "device_cfg"),
            bin_name: string_or(bin_name, "device_cfg"),
            current_version: String::from_str(current_version),
            target: match target {
                Some(t) => t,
                None => built_target(),
            },
            github_api_url: string_or(github_api_url, "https://api.github.com"),
            mirrors: mirror_list,
        }
    }

    pub fn current_version(&self) -> (r: &str)
        ensures
            r@ == self@.current_version,
    {
        self.current_version.as_str()
    }

    pub fn target(&self) -> (r: &str)
        ensures
            r@ == self@.target,
    {
        self.target.as_str()
    }

    pub fn bin_name(&self) -> (r: &str)
        ensures
            r@ == self@.bin_name,
    {
        self.bin_name.as_str()
    }

    /// The line that describes the configuration.
    pub fn config_summary(&self) -> (s: String)
        ensures
            s@ == "更新配置: repo="@ + self@.repo_owner + "/"@ + self@.repo_name + ", target="@
                + self@.target + ", mirrors="@ + join(self@.mirrors, ','),
    {
        let mut v = chars_of("更新配置: repo=");
        push_str(&mut v, self.repo_owner.as_str());
        push_str(&mut v, "/");
        push_str(&mut v, self.repo_name.as_str());
        push_str(&mut v, ", target=");
        push_str(&mut v, self.target.as_str());
        push_str(&mut v, ", mirrors=");
        let ms = chars_of_strings(&self.mirrors);
        let joined = join_from(&ms, 0, ',');
        assert(ms.deep_view().subrange(0, ms.len() as int) =~= ms.deep_view());
        push_all(&mut v, &joined);
        string_of(&v)
    }

    /// Prints the configuration summary.
    pub fn print_config(&self) {
        let s = self.config_summary();
        print_line(s.as_str());
    }
}

/// A failed update, with its message.
#[derive(Debug)]
pub struct UpdateError(pub String);

} // verus!

verus! {

/// One number of a plain version: decimal digits without a leading zero,
/// at most the largest `u64`.
pub open spec fn plain_number(s: Seq<char>) -> bool {
    &&& s.len() > 0
    &&& all_digits(s, 10)
    &&& (s.len() == 1 || s[0] != '0')
    &&& digits_value(s, 10) <= u64::MAX
}

/// A version `MAJOR.MINOR.PATCH` with no pre-release or build part.
pub open spec fn plain_version(s: Seq<char>) -> bool {
    let parts = split_on(s, '.');
    &&& parts.len() == 3
    &&& plain_number(parts[0])
    &&& plain_number(parts[1])
    &&& plain_number(parts[2])
}

/// Whether plain version `a` comes after plain version `b`: the numbers
/// compared in order, major first.
pub open spec fn plain_version_after(a: Seq<char>, b: Seq<char>) -> bool {
    let x = split_on(a, '.');
    let y = split_on(b, '.');
    let (x0, x1, x2) = (digits_value(x[0], 10), digits_value(x[1], 10), digits_value(x[2], 10));
    let (y0, y1, y2) = (digits_value(y[0], 10), digits_value(y[1], 10), digits_value(y[2], 10));
    x0 > y0 || (x0 == y0 && (x1 > y1 || (x1 == y1 && x2 > y2)))
}

/// What comparing two texts as semantic versions gives: whether `latest`
/// is the later one, or none when either is not a semantic version.
pub uninterp spec fn semver_newer(current: Seq<char>, latest: Seq<char>) -> Option<bool>;

/// `semver::Version::parse` of both texts and, when both parse, `latest >
/// current`. Its result is named `semver_newer`. Stated beside the name:
/// a version is never after itself (the order is a total order, derived
/// field by field), and plain `MAJOR.MINOR.PATCH` versions parse to those
/// numbers and compare major, then minor, then patch. What else parses,
/// and how pre-releases compare, is left to the name.
#[verifier::external_body]
fn semver_compare(current: &str, latest: &str) -> (r: Option<bool>)
    ensures
        r == semver_newer(current@, latest@),
        current@ == latest@ ==> r != Some(true),
        plain_version(current@) && plain_version(latest@) ==> r == Some(
            plain_version_after(latest@, current@),
        ),
{
    match (semver::Version::parse(current), semver::Version::parse(latest)) {
        (Ok(c), Ok(l)) => Some(l > c),
        _ => None,
    }
}

/// Whether `latest` is a newer version than `current`: by semantic
/// versioning when both are versions, else whenever the texts differ.
pub open spec fn newer_version(current: Seq<char>, latest: Seq<char>) -> bool {
    match semver_newer(current, latest) {
        Some(b) => b,
        None => latest != current,
    }
}

pub fn is_newer_version(current: &str, latest: &str) -> (b: bool)
    ensures
        b == newer_version(current@, latest@),
        current@ == latest@ ==> !b,
        plain_version(current@) && plain_version(latest@) ==> b == plain_version_after(
            latest@,
            current@,
        ),
{
    match semver_compare(current, latest) {
        Some(b) => b,
        None => {
            let c = chars_of(current);
            let l = chars_of(latest);
            !crate::text::eq_chars(&l, &c)
        },
    }
}

} // verus!

verus! {

/// `s` without the copies of `c` at its end.
pub open spec fn trim_end_char(s: Seq<char>, c: char) -> Seq<char>
    decreases s.len(),
{
    if s.len() > 0 && s.last() == c {
        trim_end_char(s.drop_last(), c)
    } else {
        s
    }
}

pub fn trim_end_chars(v: &Vec<char>, c: char) -> (out: Vec<char>)
    ensures
        out@ == trim_end_char(v@, c),
{
    let mut k = v.len();
    assert(v@.subrange(0, k as int) =~= v@);
    while k > 0 && v[k - 1] == c
        invariant
            k <= v.len(),
            trim_end_char(v@.subrange(0, k as int), c) == trim_end_char(v@, c),
        decreases k,
    {
        assert(v@.subrange(0, k as int).drop_last() =~= v@.subrange(0, k - 1));
        k -= 1;
    }
    crate::text::slice_of(v, 0, k)
}

/// The address of `url` through `mirror`: the mirror without trailing
/// slashes, a slash, then the URL.
pub open spec fn mirror_url(mirror: Seq<char>, url: Seq<char>) -> Seq<char> {
    trim_end_char(mirror, '/') + "/"@ + url
}

/// Every mirror's address for `url`, in order, then `url` itself.
pub open spec fn mirror_url_list(mirrors: Seq<Seq<char>>, url: Seq<char>) -> Seq<Seq<char>> {
    Seq::new(mirrors.len(), |i: int| mirror_url(mirrors[i], url)).push(url)
}

/// The addresses to try for `url`: through each mirror in order, and
/// last the URL itself.
pub fn build_mirror_urls(mirrors: &Vec<String>, url: &str) -> (urls: Vec<String>)
    ensures
        urls@.map_values(|s: String| s@) == mirror_url_list(mirrors@.map_values(|s: String| s@), url@),
        urls@.len() == mirrors@.len() + 1,
        urls@.last()@ == url@,
{
    let ghost ms = mirrors@.map_values(|s: String| s@);
    let mut urls: Vec<String> = Vec::new();
    let mut i: usize = 0;
    while i < mirrors.len()
        invariant
            i <= mirrors.len(),
            ms == mirrors@.map_values(|s: String| s@),
            urls@.map_values(|s: String| s@) == Seq::new(i as nat, |j: int| mirror_url(ms[j], url@)),
        decreases mirrors.len() - i,
    {
        let ghost before = urls@.map_values(|s: String| s@);
        let mut v = trim_end_chars(&chars_of(mirrors[i].as_str()), '/');
        push_str(&mut v, "/");
        push_str(&mut v, url);
        let item = string_of(&v);
        assert(ms[i as int] == mirrors@[i as int]@);
        assert(item@ == mirror_url(ms[i as int], url@));
        urls.push(item);
        assert(urls@.map_values(|s: String| s@) =~= before.push(mirror_url(ms[i as int], url@)));
        assert(urls@.map_values(|s: String| s@) =~= Seq::new((i + 1) as nat, |j: int| mirror_url(ms[j], url@)));
        i += 1;
    }
    let ghost before = urls@.map_values(|s: String| s@);
    urls.push(String::from_str(url));
    assert(urls@.map_values(|s: String| s@) =~= before.push(url@));
    urls
}

/// The addresses to try for `url` with the configured mirrors.
pub fn mirror_urls(config: &UpdateConfig, url: &str) -> (urls: Vec<String>)
    ensures
        urls@.map_values(|s: String| s@) == mirror_url_list(config@.mirrors, url@),
{
    build_mirror_urls(&config.mirrors, url)
}

/// Trying a list of addresses in order until one works: which one is next,
/// and the failure of the last one tried.
pub struct MirrorAttempts {
    urls: Vec<String>,
    next: usize,
    last_error: Option<String>,
}

pub struct MirrorAttemptsView {
    pub urls: Seq<Seq<char>>,
    pub next: nat,
    pub last_error: Option<Seq<char>>,
}

impl View for MirrorAttempts {
    type V = MirrorAttemptsView;

    closed spec fn view(&self) -> MirrorAttemptsView {
        MirrorAttemptsView {
            urls: self.urls@.map_values(|s: String| s@),
            next: self.next as nat,
            last_error: match self.last_error {
                Some(e) => Some(e@),
                None => None,
            },
        }
    }
}

/// The message when no address worked: the last failure, or that there
/// was no address to try.
pub open spec fn exhausted_message(prefix: Seq<char>, last_error: Option<Seq<char>>) -> Seq<char> {
    prefix + match last_error {
        Some(e) => e,
        None => "没有可用下载地址"@,
    }
}

impl MirrorAttempts {
    pub closed spec fn wf(&self) -> bool {
        self.next <= self.urls@.len()
    }

    /// Nothing tried yet.
    pub fn new(urls: Vec<String>) -> (a: MirrorAttempts)
        ensures
            a.wf(),
            a@.urls == urls@.map_values(|s: String| s@),
            a@.next == 0,
            a@.last_error is None,
    {
        MirrorAttempts { urls, next: 0, last_error: None }
    }

    /// The next address to try, none when all were tried.
    pub fn current(&self) -> (u: Option<String>)
        requires
            self.wf(),
        ensures
            match u {
                Some(s) => self@.next < self@.urls.len() && s@ == self@.urls[self@.next as int],
                None => self@.next == self@.urls.len(),
            },
    {
        if self.next < self.urls.len() {
            assert(self.urls@.map_values(|s: String| s@)[self.next as int] == self.urls@[self.next as int]@);
            Some(self.urls[self.next].clone())
        } else {
            None
        }
    }

    /// The current address failed with `err`: it is recorded as
    /// `address: err`, and the next address comes up.
    pub fn fail(&mut self, err: &str)
        requires
            old(self).wf(),
            old(self)@.next < old(self)@.urls.len(),
        ensures
            final(self).wf(),
            final(self)@.urls == old(self)@.urls,
            final(self)@.next == old(self)@.next + 1,
            final(self)@.last_error == Some(old(self)@.urls[old(self)@.next as int] + ": "@ + err@),
    {
        assert(self.urls@.map_values(|s: String| s@).len() == self.urls@.len());
        assert(self.urls@.map_values(|s: String| s@)[self.next as int] == self.urls@[self.next as int]@);
        let mut msg = chars_of(self.urls[self.next].as_str());
        push_str(&mut msg, ": ");
        push_str(&mut msg, err);
        assert(self.next < self.urls.len());
        self.last_error = Some(string_of(&msg));
        self.next = self.next + 1;
    }

    /// The failure when every address failed (or there was none).
    pub fn exhausted(&self, prefix: &str) -> (e: UpdateError)
        ensures
            e.0@ == exhausted_message(prefix@, self@.last_error),
    {
        let mut msg = chars_of(prefix);
        match &self.last_error {
            Some(l) => push_str(&mut msg, l.as_str()),
            None => push_str(&mut msg, "没有可用下载地址"),
        }
        UpdateError(string_of(&msg))
    }
}

} // verus!

verus! {

/// An asset of a release as the release JSON gives it; a field that is
/// missing or not a string is none.
pub struct AssetJson {
    pub name: Option<String>,
    pub browser_download_url: Option<String>,
    pub digest: Option<String>,
}

/// A release as the GitHub release JSON gives it; a field that is missing
/// or of another JSON type is none.
pub struct ReleaseJson {
    pub tag_name: Option<String>,
    pub created_at: Option<String>,
    pub name: Option<String>,
    pub body: Option<String>,
    pub assets: Option<Vec<AssetJson>>,
}

pub struct AssetJsonView {
    pub name: Option<Seq<char>>,
    pub download_url: Option<Seq<char>>,
    pub digest: Option<Seq<char>>,
}

pub struct ReleaseJsonView {
    pub tag_name: Option<Seq<char>>,
    pub created_at: Option<Seq<char>>,
    pub name: Option<Seq<char>>,
    pub body: Option<Seq<char>>,
    pub assets: Option<Seq<AssetJsonView>>,
}

pub open spec fn opt_text(o: Option<String>) -> Option<Seq<char>> {
    match o {
        Some(s) => Some(s@),
        None => None,
    }
}

impl View for AssetJson {
    type V = AssetJsonView;

    open spec fn view(&self) -> AssetJsonView {
        AssetJsonView {
            name: opt_text(self.name),
            download_url: opt_text(self.browser_download_url),
            digest: opt_text(self.digest),
        }
    }
}

impl View for ReleaseJson {
    type V = ReleaseJsonView;

    open spec fn view(&self) -> ReleaseJsonView {
        ReleaseJsonView {
            tag_name: opt_text(self.tag_name),
            created_at: opt_text(self.created_at),
            name: opt_text(self.name),
            body: opt_text(self.body),
            assets: match self.assets {
                Some(v) => Some(v@.map_values(|a: AssetJson| a@)),
                None => None,
            },
        }
    }
}

/// A downloadable file of a release.
#[derive(Debug, Clone)]
pub struct ReleaseAsset {
    pub name: String,
    pub download_url: String,
}

/// A release: its name, version (the tag without leading `v`s), date,
/// notes and files.
#[derive(Debug, Clone)]
pub struct Release {
    pub name: String,
    pub version: String,
    pub date: String,
    pub body: Option<String>,
    pub assets: Vec<ReleaseAsset>,
}

pub struct ReleaseAssetView {
    pub name: Seq<char>,
    pub download_url: Seq<char>,
}

pub struct ReleaseView {
    pub name: Seq<char>,
    pub version: Seq<char>,
    pub date: Seq<char>,
    pub body: Option<Seq<char>>,
    pub assets: Seq<ReleaseAssetView>,
}

impl View for ReleaseAsset {
    type V = ReleaseAssetView;

    open spec fn view(&self) -> ReleaseAssetView {
        ReleaseAssetView { name: self.name@, download_url: self.download_url@ }
    }
}

impl View for Release {
    type V = ReleaseView;

    open spec fn view(&self) -> ReleaseView {
        ReleaseView {
            name: self.name@,
            version: self.version@,
            date: self.date@,
            body: opt_text(self.body),
            assets: self.assets@.map_values(|a: ReleaseAsset| a@),
        }
    }
}

/// An asset read from the JSON: it needs a name and a download URL.
pub open spec fn asset_outcome(a: AssetJsonView) -> Result<ReleaseAssetView, Seq<char>> {
    match (a.name, a.download_url) {
        (None, _) => Err("release asset 缺少 name"@),
        (Some(_), None) => Err("release asset 缺少 browser_download_url"@),
        (Some(n), Some(u)) => Ok(ReleaseAssetView { name: n, download_url: u }),
    }
}

/// The assets read in order; the first that fails decides.
pub open spec fn assets_outcome(assets: Seq<AssetJsonView>) -> Result<Seq<ReleaseAssetView>, Seq<char>>
    decreases assets.len(),
{
    if assets.len() == 0 {
        Ok(seq![])
    } else {
        match assets_outcome(assets.drop_last()) {
            Err(e) => Err(e),
            Ok(prev) => match asset_outcome(assets.last()) {
                Err(e) => Err(e),
                Ok(a) => Ok(prev.push(a)),
            },
        }
    }
}

/// A release read from the JSON: it needs a tag, a creation date and a
/// list of assets; its name defaults to the tag.
pub open spec fn release_outcome(j: ReleaseJsonView) -> Result<ReleaseView, Seq<char>> {
    match (j.tag_name, j.created_at, j.assets) {
        (None, _, _) => Err("release 缺少 tag_name"@),
        (Some(_), None, _) => Err("release 缺少 created_at"@),
        (Some(_), Some(_), None) => Err("release 缺少 assets"@),
        (Some(tag), Some(date), Some(assets)) => match assets_outcome(assets) {
            Err(e) => Err(e),
            Ok(list) => Ok(
                ReleaseView {
                    name: match j.name {
                        Some(n) => n,
                        None => tag,
                    },
                    version: crate::text::trim_start_char(tag, 'v'),
                    date,
                    body: j.body,
                    assets: list,
                },
            ),
        },
    }
}

/// Reading assets gives one asset for each, when it succeeds.
proof fn lemma_assets_outcome_len(assets: Seq<AssetJsonView>)
    ensures
        assets_outcome(assets) matches Ok(list) ==> list.len() == assets.len(),
    decreases assets.len(),
{
    if assets.len() > 0 {
        lemma_assets_outcome_len(assets.drop_last());
    }
}

/// A release read from JSON keeps what the JSON says of it: its notes are
/// the JSON's `body` unchanged (present exactly when the field is), its
/// date is `created_at`, its name is `name` or else the tag, its version is
/// the tag without a leading `v`, and it has one asset for each asset of
/// the JSON.
pub proof fn law_release_keeps_json_fields(j: ReleaseJsonView)
    ensures
        release_outcome(j) matches Ok(r) ==> {
            &&& r.body == j.body
            &&& j.created_at == Some(r.date)
            &&& j.tag_name is Some
            &&& (j.name matches Some(n) ==> r.name == n)
            &&& (j.name is None ==> r.name == j.tag_name->0)
            &&& j.assets is Some
            &&& r.assets.len() == j.assets->0.len()
        },
{
    if let (Some(tag), Some(date), Some(assets)) = (j.tag_name, j.created_at, j.assets) {
        lemma_assets_outcome_len(assets);
    }
}

fn clone_opt(o: &Option<String>) -> (r: Option<String>)
    ensures
        opt_text(r) == opt_text(*o),
{
    match o {
        Some(s) => Some(s.clone()),
        None => None,
    }
}

fn release_asset_from_json(a: &AssetJson) -> (r: Result<ReleaseAsset, UpdateError>)
    ensures
        match r {
            Ok(x) => asset_outcome(a@) == Ok::<ReleaseAssetView, Seq<char>>(x@),
            Err(e) => asset_outcome(a@) == Err::<ReleaseAssetView, Seq<char>>(e.0@),
        },
{
    match (&a.name, &a.browser_download_url) {
        (None, _) => Err(UpdateError(String::from_str("release asset 缺少 name"))),
        (Some(_), None) => Err(UpdateError(String::from_str("release asset 缺少 browser_download_url"))),
        (Some(n), Some(u)) => Ok(ReleaseAsset { name: n.clone(), download_url: u.clone() }),
    }
}

/// The release that the JSON describes, or what it lacks.
pub fn release_from_json(json: &ReleaseJson) -> (r: Result<Release, UpdateError>)
    ensures
        match r {
            Ok(x) => release_outcome(json@) == Ok::<ReleaseView, Seq<char>>(x@),
            Err(e) => release_outcome(json@) == Err::<ReleaseView, Seq<char>>(e.0@),
        },
{
    let tag = match &json.tag_name {
        Some(t) => t,
        None => return Err(UpdateError(String::from_str("release 缺少 tag_name"))),
    };
    let date = match &json.created_at {
        Some(d) => d,
        None => return Err(UpdateError(String::from_str("release 缺少 created_at"))),
    };
    let assets_json = match &json.assets {
        Some(a) => a,
        None => return Err(UpdateError(String::from_str("release 缺少 assets"))),
    };
    let ghost av = assets_json@.map_values(|a: AssetJson| a@);
    assert(json@.assets == Some(av));
    let mut assets: Vec<ReleaseAsset> = Vec::new();
    let mut i: usize = 0;
    assert(av.subrange(0, 0) =~= Seq::<AssetJsonView>::empty());
    assert(assets@.map_values(|a: ReleaseAsset| a@) =~= Seq::<ReleaseAssetView>::empty());
    while i < assets_json.len()
        invariant
            i <= assets_json.len(),
            av == assets_json@.map_values(|a: AssetJson| a@),
            json@.assets == Some(av),
            json.tag_name is Some,
            json.created_at is Some,
            assets_outcome(av.subrange(0, i as int)) == Ok::<Seq<ReleaseAssetView>, Seq<char>>(
                assets@.map_values(|a: ReleaseAsset| a@),
            ),
        decreases assets_json.len() - i,
    {
        assert(av.subrange(0, i + 1).drop_last() =~= av.subrange(0, i as int));
        assert(av.subrange(0, i + 1).last() == assets_json@[i as int]@);
        match release_asset_from_json(&assets_json[i]) {
            Ok(x) => {
                let ghost before = assets@.map_values(|a: ReleaseAsset| a@);
                assets.push(x);
                assert(assets@.map_values(|a: ReleaseAsset| a@) =~= before.push(x@));
            },
            Err(e) => {
                proof {
                    assert(assets_outcome(av.subrange(0, i + 1)) == Err::<Seq<ReleaseAssetView>, Seq<char>>(
                        e.0@,
                    ));
                    lemma_assets_outcome_prefix_err(av, i as int + 1);
                }
                return Err(e);
            },
        }
        i += 1;
    }
    assert(av.subrange(0, assets_json.len() as int) =~= av);
    let name = match &json.name {
        Some(n) => n.clone(),
        None => tag.clone(),
    };
    let version = string_of(&crate::text::trim_start_chars(&chars_of(tag.as_str()), 'v'));
    Ok(Release { name, version, date: date.clone(), body: clone_opt(&json.body), assets })
}

/// Once a prefix of the assets fails, the whole list fails the same way.
proof fn lemma_assets_outcome_prefix_err(av: Seq<AssetJsonView>, k: int)
    requires
        0 <= k <= av.len(),
        assets_outcome(av.subrange(0, k)) is Err,
    ensures
        assets_outcome(av) == assets_outcome(av.subrange(0, k)),
    decreases av.len() - k,
{
    if k < av.len() {
        assert(av.subrange(0, k + 1).drop_last() =~= av.subrange(0, k));
        lemma_assets_outcome_prefix_err(av, k + 1);
    } else {
        assert(av.subrange(0, k) =~= av);
    }
}

} // verus!

verus! {

/// The first index whose name contains both `a` and `b`, or -1.
pub open spec fn first_with_both(names: Seq<Seq<char>>, a: Seq<char>, b: Seq<char>) -> int
    decreases names.len(),
{
    if names.len() == 0 {
        -1
    } else if contains_seq(names[0], a) && contains_seq(names[0], b) {
        0
    } else {
        let r = first_with_both(names.drop_first(), a, b);
        if r < 0 {
            -1
        } else {
            r + 1
        }
    }
}

/// The first index whose name contains `a`, or -1.
pub open spec fn first_with(names: Seq<Seq<char>>, a: Seq<char>) -> int
    decreases names.len(),
{
    if names.len() == 0 {
        -1
    } else if contains_seq(names[0], a) {
        0
    } else {
        let r = first_with(names.drop_first(), a);
        if r < 0 {
            -1
        } else {
            r + 1
        }
    }
}

pub proof fn lemma_first_with_both(names: Seq<Seq<char>>, a: Seq<char>, b: Seq<char>)
    ensures
        -1 <= first_with_both(names, a, b) < names.len(),
        first_with_both(names, a, b) >= 0 ==> contains_seq(names[first_with_both(names, a, b)], a)
            && contains_seq(names[first_with_both(names, a, b)], b),
        forall|j: int|
            0 <= j < names.len() && (first_with_both(names, a, b) < 0 || j < first_with_both(names, a, b))
                ==> !(contains_seq(#[trigger] names[j], a) && contains_seq(names[j], b)),
    decreases names.len(),
{
    if names.len() > 0 && !(contains_seq(names[0], a) && contains_seq(names[0], b)) {
        lemma_first_with_both(names.drop_first(), a, b);
        assert forall|j: int|
            0 <= j < names.len() && (first_with_both(names, a, b) < 0 || j < first_with_both(names, a, b))
                implies !(contains_seq(#[trigger] names[j], a) && contains_seq(names[j], b)) by {
            if j > 0 {
                assert(names[j] == names.drop_first()[j - 1]);
            }
        }
    }
}

pub proof fn lemma_first_with(names: Seq<Seq<char>>, a: Seq<char>)
    ensures
        -1 <= first_with(names, a) < names.len(),
        first_with(names, a) >= 0 ==> contains_seq(names[first_with(names, a)], a),
        forall|j: int|
            0 <= j < names.len() && (first_with(names, a) < 0 || j < first_with(names, a)) ==> !contains_seq(
                #[trigger] names[j],
                a,
            ),
    decreases names.len(),
{
    if names.len() > 0 && !contains_seq(names[0], a) {
        lemma_first_with(names.drop_first(), a);
        assert forall|j: int|
            0 <= j < names.len() && (first_with(names, a) < 0 || j < first_with(names, a)) implies !contains_seq(
            #[trigger] names[j],
            a,
        ) by {
            if j > 0 {
                assert(names[j] == names.drop_first()[j - 1]);
            }
        }
    }
}

/// The names of the assets.
pub open spec fn asset_names(assets: Seq<ReleaseAssetView>) -> Seq<Seq<char>> {
    assets.map_values(|a: ReleaseAssetView| a.name)
}

/// The asset for this program and target: the first whose name holds both
/// the target and the program's name, else the first that holds the target.
pub open spec fn target_asset_index(assets: Seq<ReleaseAssetView>, target: Seq<char>, bin: Seq<char>) -> int {
    let both = first_with_both(asset_names(assets), target, bin);
    if both >= 0 {
        both
    } else {
        first_with(asset_names(assets), target)
    }
}

fn asset_name_chars(assets: &Vec<ReleaseAsset>) -> (out: Vec<Vec<char>>)
    ensures
        out.deep_view() == asset_names(assets@.map_values(|a: ReleaseAsset| a@)),
        out@.len() == assets@.len(),
{
    let mut out: Vec<Vec<char>> = Vec::new();
    let mut i: usize = 0;
    let ghost av = assets@.map_values(|a: ReleaseAsset| a@);
    while i < assets.len()
        invariant
            i <= assets.len(),
            av == assets@.map_values(|a: ReleaseAsset| a@),
            out@.len() == i,
            out.deep_view() == asset_names(av.subrange(0, i as int)),
        decreases assets.len() - i,
    {
        let ghost before = out.deep_view();
        let c = chars_of(assets[i].name.as_str());
        out.push(c);
        assert(c.deep_view() =~= c@);
        assert(out.deep_view() =~= before.push(c@));
        assert(asset_names(av.subrange(0, i + 1)) =~= asset_names(av.subrange(0, i as int)).push(
            av[i as int].name,
        ));
        i += 1;
    }
    assert(av.subrange(0, assets.len() as int) =~= av);
    out
}

fn clone_asset(a: &ReleaseAsset) -> (r: ReleaseAsset)
    ensures
        r@ == a@,
{
    ReleaseAsset { name: a.name.clone(), download_url: a.download_url.clone() }
}

/// The index of the asset for `target` and `bin`, or the number of assets.
pub fn target_asset_position(assets: &Vec<ReleaseAsset>, target: &str, bin: &str) -> (k: usize)
    ensures
        k == (if target_asset_index(assets@.map_values(|a: ReleaseAsset| a@), target@, bin@) < 0 {
            assets@.len() as int
        } else {
            target_asset_index(assets@.map_values(|a: ReleaseAsset| a@), target@, bin@)
        }),
        target_asset_index(assets@.map_values(|a: ReleaseAsset| a@), target@, bin@) < assets@.len(),
{
    let names = asset_name_chars(assets);
    let ghost nv = names.deep_view();
    let t = chars_of(target);
    let b = chars_of(bin);
    proof {
        crate::text::lemma_deep_chars(names);
        lemma_first_with_both(nv, t@, b@);
        lemma_first_with(nv, t@);
    }
    let mut i: usize = 0;
    while i < names.len()
        invariant
            i <= names.len(),
            nv == names.deep_view(),
            nv == asset_names(assets@.map_values(|a: ReleaseAsset| a@)),
            t@ == target@,
            b@ == bin@,
            nv.len() == names@.len(),
            names@.len() == assets@.len(),
            forall|j: int| 0 <= j < names@.len() ==> #[trigger] nv[j] == names@[j]@,
            forall|j: int| 0 <= j < i ==> !(contains_seq(#[trigger] nv[j], t@) && contains_seq(nv[j], b@)),
        decreases names.len() - i,
    {
        if contains_chars(&names[i], &t) && contains_chars(&names[i], &b) {
            proof {
                lemma_first_with_both(nv, t@, b@);
                assert(nv[i as int] == names@[i as int]@);
                assert(contains_seq(nv[i as int], t@) && contains_seq(nv[i as int], b@));
                assert(first_with_both(nv, t@, b@) == i);
            }
            return i;
        }
        i += 1;
    }
    let mut k: usize = 0;
    while k < names.len()
        invariant
            k <= names.len(),
            nv == names.deep_view(),
            nv == asset_names(assets@.map_values(|a: ReleaseAsset| a@)),
            t@ == target@,
            b@ == bin@,
            nv.len() == names@.len(),
            names@.len() == assets@.len(),
            forall|j: int| 0 <= j < names@.len() ==> #[trigger] nv[j] == names@[j]@,
            forall|j: int| 0 <= j < names@.len() ==> !(contains_seq(#[trigger] nv[j], t@) && contains_seq(nv[j], b@)),
            forall|j: int| 0 <= j < k ==> !contains_seq(#[trigger] nv[j], t@),
        decreases names.len() - k,
    {
        if contains_chars(&names[k], &t) {
            proof {
                lemma_first_with_both(nv, t@, b@);
                lemma_first_with(nv, t@);
                if first_with_both(nv, t@, b@) >= 0 {
                    let f = first_with_both(nv, t@, b@);
                    assert(contains_seq(nv[f], t@) && contains_seq(nv[f], b@));
                }
                assert(nv[k as int] == names@[k as int]@);
                assert(contains_seq(nv[k as int], t@));
                assert(first_with(nv, t@) == k);
            }
            return k;
        }
        k += 1;
    }
    proof {
        lemma_first_with_both(nv, t@, b@);
        lemma_first_with(nv, t@);
        if first_with_both(nv, t@, b@) >= 0 {
            let f = first_with_both(nv, t@, b@);
            assert(contains_seq(nv[f], t@) && contains_seq(nv[f], b@));
        }
        if first_with(nv, t@) >= 0 {
            let f = first_with(nv, t@);
            assert(contains_seq(nv[f], t@));
        }
    }
    k
}

/// The asset for the configured target and program.
pub fn find_target_asset(config: &UpdateConfig, release: &Release) -> (a: Option<ReleaseAsset>)
    ensures
        match a {
            Some(x) => {
                let k = target_asset_index(release@.assets, config@.target, config@.bin_name);
                k >= 0 && x@ == release@.assets[k]
            },
            None => target_asset_index(release@.assets, config@.target, config@.bin_name) < 0,
        },
{
    let k = target_asset_position(&release.assets, config.target.as_str(), config.bin_name.as_str());
    if k < release.assets.len() {
        assert(release@.assets[k as int] == release.assets@[k as int]@);
        Some(clone_asset(&release.assets[k]))
    } else {
        None
    }
}

/// The asset for the configured target, or the failure that lists the
/// assets there are.
pub fn release_asset_for(config: &UpdateConfig, release: &Release) -> (r: Result<ReleaseAsset, UpdateError>)
    ensures
        match r {
            Ok(x) => {
                let k = target_asset_index(release@.assets, config@.target, config@.bin_name);
                k >= 0 && x@ == release@.assets[k]
            },
            Err(e) => target_asset_index(release@.assets, config@.target, config@.bin_name) < 0 && e.0@
                == "未找到匹配 target="@ + config@.target + " 的 release asset，可用 assets: "@
                + crate::text::join_with(asset_names(release@.assets), ", "@),
        },
{
    match find_target_asset(config, release) {
        Some(a) => Ok(a),
        None => {
            let names = asset_name_chars(&release.assets);
            let mut msg = chars_of("未找到匹配 target=");
            push_str(&mut msg, config.target.as_str());
            push_str(&mut msg, " 的 release asset，可用 assets: ");
            push_all(&mut msg, &crate::text::join_strings(&names, ", "));
            Err(UpdateError(string_of(&msg)))
        },
    }
}

/// What is known of the latest release.
#[derive(Debug, Clone)]
pub struct UpdateInfo {
    pub current_version: String,
    pub latest_version: String,
    pub update_available: bool,
    pub target: String,
    pub asset_name: Option<String>,
    pub download_url: Option<String>,
    pub mirror_urls: Vec<String>,
    pub release_url: String,
    pub release_notes: Option<String>,
}

/// The page of a release on GitHub.
pub open spec fn release_page(owner: Seq<char>, repo: Seq<char>, version: Seq<char>) -> Seq<char> {
    "https://github.com/"@ + owner + "/"@ + repo + "/releases/tag/v"@ + version
}

pub fn release_page_url(owner: &str, repo: &str, version: &str) -> (s: String)
    ensures
        s@ == release_page(owner@, repo@, version@),
{
    let mut v = chars_of("https://github.com/");
    push_str(&mut v, owner);
    push_str(&mut v, "/");
    push_str(&mut v, repo);
    push_str(&mut v, "/releases/tag/v");
    push_str(&mut v, version);
    string_of(&v)
}

/// What the latest release offers this program: its version, whether it
/// is newer, its asset for the target and where to download it.
pub fn build_update_info(config: &UpdateConfig, release: &Release) -> (info: UpdateInfo)
    ensures
        info.current_version@ == config@.current_version,
        info.latest_version@ == release@.version,
        info.update_available == newer_version(config@.current_version, release@.version),
        info.target@ == config@.target,
        ({
            let k = target_asset_index(release@.assets, config@.target, config@.bin_name);
            if k >= 0 {
                &&& opt_text(info.asset_name) == Some(release@.assets[k].name)
                &&& opt_text(info.download_url) == Some(release@.assets[k].download_url)
                &&& info.mirror_urls@.map_values(|s: String| s@) == mirror_url_list(
                    config@.mirrors,
                    release@.assets[k].download_url,
                )
            } else {
                &&& info.asset_name is None
                &&& info.download_url is None
                &&& info.mirror_urls@.len() == 0
            }
        }),
        info.release_url@ == release_page(config@.repo_owner, config@.repo_name, release@.version),
        opt_text(info.release_notes) == release@.body,
{
    let asset = find_target_asset(config, release);
    let (asset_name, download_url, urls) = match &asset {
        Some(a) => (Some(a.name.clone()), Some(a.download_url.clone()), mirror_urls(config, a.download_url.as_str())),
        None => (None, None, Vec::new()),
    };
    UpdateInfo {
        current_version: config.current_version.clone(),
        latest_version: release.version.clone(),
        update_available: is_newer_version(config.current_version.as_str(), release.version.as_str()),
        target: config.target.clone(),
        asset_name,
        download_url,
        mirror_urls: urls,
        release_url: release_page_url(config.repo_owner.as_str(), config.repo_name.as_str(), release.version.as_str()),
        release_notes: clone_opt(&release.body),
    }
}

} // verus!

verus! {

/// The outcome of installing an update.
#[derive(Debug, Clone)]
pub struct ApplyUpdateResult {
    pub previous_version: String,
    pub updated_version: String,
    pub target: String,
    pub asset_name: String,
    pub downloaded_from: String,
    pub installed_path: String,
}

/// The address of the latest-release API of a repository: the API base
/// without trailing slashes, then `/repos/<owner>/<repo>/releases/latest`.
pub open spec fn latest_release_api(base: Seq<char>, owner: Seq<char>, repo: Seq<char>) -> Seq<char> {
    trim_end_char(base, '/') + "/repos/"@ + owner + "/"@ + repo + "/releases/latest"@
}

pub fn latest_release_api_url(base: &str, owner: &str, repo: &str) -> (s: String)
    ensures
        s@ == latest_release_api(base@, owner@, repo@),
{
    let mut v = trim_end_chars(&chars_of(base), '/');
    push_str(&mut v, "/repos/");
    push_str(&mut v, owner);
    push_str(&mut v, "/");
    push_str(&mut v, repo);
    push_str(&mut v, "/releases/latest");
    string_of(&v)
}

/// The file that the release archive holds the program under: its name,
/// a dash and the target (executables have no extension on the Linux
/// targets this runs on).
pub fn archive_bin_name(config: &UpdateConfig) -> (s: String)
    ensures
        s@ == config@.bin_name + "-"@ + config@.target,
{
    let mut v = chars_of(config.bin_name.as_str());
    push_str(&mut v, "-");
    push_str(&mut v, config.target.as_str());
    string_of(&v)
}

/// What installing the latest release takes: refused when it is not newer
/// than the running version; else its asset for the target and the
/// addresses to download that asset from, in the order to try them.
pub open spec fn update_plan_outcome(config: UpdateConfigView, release: ReleaseView) -> Result<
    (ReleaseAssetView, Seq<Seq<char>>),
    Seq<char>,
> {
    let k = target_asset_index(release.assets, config.target, config.bin_name);
    if !newer_version(config.current_version, release.version) {
        Err("当前已是最新版本: v"@ + config.current_version)
    } else if k < 0 {
        Err(
            "未找到匹配 target="@ + config.target + " 的 release asset，可用 assets: "@
                + crate::text::join_with(asset_names(release.assets), ", "@),
        )
    } else {
        Ok((release.assets[k], mirror_url_list(config.mirrors, release.assets[k].download_url)))
    }
}

pub struct UpdateService {
    config: UpdateConfig,
}

impl UpdateService {
    pub closed spec fn config_view(&self) -> UpdateConfigView {
        self.config@
    }

    pub fn new(config: UpdateConfig) -> (s: UpdateService)
        ensures
            s.config_view() == config@,
    {
        UpdateService { config }
    }

    pub fn config(&self) -> (c: &UpdateConfig)
        ensures
            c@ == self.config_view(),
    {
        &self.config
    }

    /// Prints the configuration summary.
    pub fn print_config(&self) {
        self.config.print_config();
    }

    /// The address of the latest-release API, and the addresses to fetch
    /// it from, in order.
    pub fn release_api_urls(&self) -> (urls: Vec<String>)
        ensures
            urls@.map_values(|s: String| s@) == mirror_url_list(
                self.config_view().mirrors,
                latest_release_api(
                    self.config_view().github_api_url,
                    self.config_view().repo_owner,
                    self.config_view().repo_name,
                ),
            ),
    {
        let api = latest_release_api_url(
            self.config.github_api_url.as_str(),
            self.config.repo_owner.as_str(),
            self.config.repo_name.as_str(),
        );
        mirror_urls(&self.config, api.as_str())
    }

    /// What installing `release` takes (see `update_plan_outcome`).
    pub fn update_plan(&self, release: &Release) -> (r: Result<(ReleaseAsset, Vec<String>), UpdateError>)
        ensures
            match r {
                Ok((a, urls)) => update_plan_outcome(self.config_view(), release@) == Ok::<
                    (ReleaseAssetView, Seq<Seq<char>>),
                    Seq<char>,
                >((a@, urls@.map_values(|s: String| s@))),
                Err(e) => update_plan_outcome(self.config_view(), release@) == Err::<
                    (ReleaseAssetView, Seq<Seq<char>>),
                    Seq<char>,
                >(e.0@),
            },
    {
        let config = &self.config;
        if !is_newer_version(config.current_version.as_str(), release.version.as_str()) {
            let mut msg = chars_of("当前已是最新版本: v");
            push_str(&mut msg, config.current_version.as_str());
            return Err(UpdateError(string_of(&msg)));
        }
        match release_asset_for(config, release) {
            Ok(a) => {
                let urls = mirror_urls(config, a.download_url.as_str());
                Ok((a, urls))
            },
            Err(e) => Err(e),
        }
    }

    /// The outcome once the asset was downloaded from `downloaded_from` and
    /// installed at `installed_path`.
    pub fn applied(&self, release: &Release, asset: &ReleaseAsset, downloaded_from: String, installed_path: String) -> (r: ApplyUpdateResult)
        ensures
            r.previous_version@ == self.config_view().current_version,
            r.updated_version@ == release@.version,
            r.target@ == self.config_view().target,
            r.asset_name@ == asset@.name,
            r.downloaded_from@ == downloaded_from@,
            r.installed_path@ == installed_path@,
    {
        ApplyUpdateResult {
            previous_version: self.config.current_version.clone(),
            updated_version: release.version.clone(),
            target: self.config.target.clone(),
            asset_name: asset.name.clone(),
            downloaded_from,
            installed_path,
        }
    }
}

} // verus!
