//! The wired interface: its `ifupdown` configuration file, written from
//! settings and read back, and its status.
use vstd::prelude::*;
use crate::device::netif::{
    carrier_of, counter_value, iface_is_up, interface_up, operstate_of, operstate_text,
    parse_carrier, read_counter, text_of, InterfaceReadings,
};
use crate::numeric::{
    all_digits, decimal, digit_value, digits_value, lemma_decimal_digits, parse_digits, parse_u8,
    parse_unsigned, push_decimal,
};
use crate::text::{
    chars_of, lemma_split_on_last, lemma_split_on_unfold, nonblank_trimmed, unlines, no_newline, lemma_unlines_front, lemma_lines_unlines, contains_chars, contains_seq, eq_chars, has_ws, is_ws, join, lines, lines_of, strip_cr,
    push_all, push_str, slice_of, split_chars, split_on, split_words, string_of, trim, trim_chars,
    trim_str, words,
};

verus! {

/// Which interface, where its configuration lives, and the service that
/// applies it.
#[derive(Clone)]
pub struct EthernetConfig {
    iface: String,
    config_path: String,
    network_restart_bin: String,
}

impl EthernetConfig {
    pub closed spec fn iface_view(&self) -> Seq<char> {
        self.iface@
    }

    pub closed spec fn config_path_view(&self) -> Seq<char> {
        self.config_path@
    }

    pub closed spec fn restart_bin_view(&self) -> Seq<char> {
        self.network_restart_bin@
    }

    /// The configuration from `ETHERNET_IFACE`, `ETHERNET_CONFIG_PATH` and
    /// `NETWORK_RESTART_BIN`, each replaced by its default when unset.
    pub fn from_env_values(
        iface: Option<String>,
        config_path: Option<String>,
        network_restart_bin: Option<String>,
    ) -> (c: EthernetConfig)
        ensures
            c.iface_view() == (match iface {
                Some(v) => v@,
                None => "eth0"@,
            }),
            c.config_path_view() == (match config_path {
                Some(v) => v@,
                None => "/etc/network/interfaces.d/eth0"@,
            }),
            c.restart_bin_view() == (match network_restart_bin {
                Some(v) => v@,
                None => "/etc/init.d/S40network"@,
            }),
    {
        EthernetConfig {
            iface: match iface {
                Some(v) => v,
                None => String::from_str("eth0"),
            },
            config_path: match config_path {
                Some(v) => v,
                None => String::from_str("/etc/network/interfaces.d/eth0"),
            },
            network_restart_bin: match network_restart_bin {
                Some(v) => v,
                None => String::from_str("/etc/init.d/S40network"),
            },
        }
    }

    pub fn iface(&self) -> (r: &str)
        ensures
            r@ == self.iface_view(),
    {
        self.iface.as_str()
    }

    pub fn config_path(&self) -> (r: &str)
        ensures
            r@ == self.config_path_view(),
    {
        self.config_path.as_str()
    }

    pub fn network_restart_bin(&self) -> (r: &str)
        ensures
            r@ == self.restart_bin_view(),
    {
        self.network_restart_bin.as_str()
    }
}

/// A failed Ethernet operation, with its message.
#[derive(Debug)]
pub struct EthernetError(pub String);

/// What is known of the interface.
#[derive(Debug, Clone)]
pub struct EthernetStatus {
    pub iface: String,
    pub exists: bool,
    pub operstate: String,
    pub carrier: Option<bool>,
    pub up: bool,
    pub mac_address: Option<String>,
    pub ipv4_addresses: Vec<String>,
    pub primary_ipv4: Option<String>,
    pub netmask: Option<String>,
    pub gateway: Option<String>,
    pub dns_nameservers: Vec<String>,
    pub rx_packets: u64,
    pub tx_packets: u64,
    pub rx_bytes: u64,
    pub tx_bytes: u64,
    pub rx_errors: u64,
    pub tx_errors: u64,
    pub config_mode: Option<String>,
}

#[derive(Debug, PartialEq, Eq, Structural, Clone, Copy)]
pub enum EthernetMode {
    Dhcp,
    Static,
}

/// The settings that the configuration file holds.
#[derive(Debug, Clone)]
pub struct EthernetSettings {
    pub mode: EthernetMode,
    pub address: Option<String>,
    pub netmask: Option<String>,
    pub gateway: Option<String>,
    pub dns_nameservers: Vec<String>,
}

pub struct EthernetSettingsView {
    pub mode: EthernetMode,
    pub address: Option<Seq<char>>,
    pub netmask: Option<Seq<char>>,
    pub gateway: Option<Seq<char>>,
    pub dns_nameservers: Seq<Seq<char>>,
}

impl View for EthernetSettings {
    type V = EthernetSettingsView;

    open spec fn view(&self) -> EthernetSettingsView {
        EthernetSettingsView {
            mode: self.mode,
            address: text_of(self.address),
            netmask: text_of(self.netmask),
            gateway: text_of(self.gateway),
            dns_nameservers: self.dns_nameservers@.map_values(|s: String| s@),
        }
    }
}

/// The configuration file as read: its settings and its text.
#[derive(Debug, Clone)]
pub struct EthernetConfigView {
    pub iface: String,
    pub path: String,
    pub settings: EthernetSettings,
    pub raw: String,
}

#[derive(Debug, Clone)]
pub struct EthernetApplyResult {
    pub config: EthernetConfigView,
    pub status: EthernetStatus,
    pub restart_output: String,
}

pub struct EthernetService {
    config: EthernetConfig,
}

impl EthernetService {
    pub closed spec fn config_view(&self) -> EthernetConfig {
        self.config
    }

    pub fn new(config: EthernetConfig) -> (s: EthernetService)
        ensures
            s.config_view() == config,
    {
        EthernetService { config }
    }

    pub fn config(&self) -> (c: &EthernetConfig)
        ensures
            *c == self.config_view(),
    {
        &self.config
    }

    /// The line that describes the configuration.
    pub fn config_summary(&self) -> (s: String)
        ensures
            s@ == "以太网配置: iface="@ + self.config_view().iface_view() + ", config_path="@
                + self.config_view().config_path_view() + ", network_restart_bin="@
                + self.config_view().restart_bin_view(),
    {
        let mut v = chars_of("以太网配置: iface=");
        push_str(&mut v, self.config.iface());
        push_str(&mut v, ", config_path=");
        push_str(&mut v, self.config.config_path());
        push_str(&mut v, ", network_restart_bin=");
        push_str(&mut v, self.config.network_restart_bin());
        string_of(&v)
    }

    /// Prints the configuration summary.
    pub fn print_config(&self) {
        let s = self.config_summary();
        crate::text::print_line(s.as_str());
    }
}

/// One part of a dotted IPv4 address as `Ipv4Addr` reads it: one to three
/// ASCII digits, no leading zero, at most 255.
pub open spec fn is_octet(s: Seq<char>) -> bool {
    &&& 1 <= s.len() <= 3
    &&& all_digits(s, 10)
    &&& !(s.len() > 1 && s[0] == '0')
    &&& digits_value(s, 10) <= 255
}

/// Text that `Ipv4Addr` parses: four octets separated by dots.
pub open spec fn is_ipv4(s: Seq<char>) -> bool {
    let parts = split_on(s, '.');
    &&& parts.len() == 4
    &&& forall|i: int| 0 <= i < 4 ==> is_octet(#[trigger] parts[i])
}

fn octet_ok(v: &Vec<char>) -> (b: bool)
    ensures
        b == is_octet(v@),
{
    if v.len() < 1 || v.len() > 3 {
        return false;
    }
    if v.len() > 1 && v[0] == '0' {
        return false;
    }
    match parse_digits(v, 0, 10, 255) {
        Some(_) => {
            assert(v@.subrange(0, v.len() as int) =~= v@);
            true
        },
        None => {
            assert(v@.subrange(0, v.len() as int) =~= v@);
            false
        },
    }
}

/// Whether `s` is an IPv4 address in dotted form.
pub fn ipv4_ok(s: &Vec<char>) -> (b: bool)
    ensures
        b == is_ipv4(s@),
{
    let parts = split_chars(s, '.');
    if parts.len() != 4 {
        return false;
    }
    let mut i: usize = 0;
    while i < 4
        invariant
            i <= 4,
            parts.len() == 4,
            parts.deep_view() == split_on(s@, '.'),
            forall|j: int| 0 <= j < i ==> is_octet(#[trigger] parts.deep_view()[j]),
        decreases 4 - i,
    {
        assert(parts@[i as int].deep_view() =~= parts@[i as int]@);
        if !octet_ok(&parts[i]) {
            assert(!is_octet(split_on(s@, '.')[i as int]));
            assert(!is_ipv4(s@));
            return false;
        }
        i += 1;
    }
    true
}

/// The message for a value that is not an address.
pub open spec fn invalid_ipv4_message(label: Seq<char>, value: Seq<char>) -> Seq<char> {
    label + "格式无效: "@ + value
}

/// The message for a value that is required and missing.
pub open spec fn empty_value_message(label: Seq<char>) -> Seq<char> {
    label + "不能为空"@
}

/// `Ok` when the trimmed value is an IPv4 address; the failure names the
/// field and shows the value as given.
pub fn parse_ipv4(value: &str, label: &str) -> (r: Result<(), EthernetError>)
    ensures
        r is Ok <==> is_ipv4(trim(value@)),
        r matches Err(e) ==> e.0@ == invalid_ipv4_message(label@, value@),
{
    if ipv4_ok(&trim_str(value)) {
        Ok(())
    } else {
        let mut msg = chars_of(label);
        push_str(&mut msg, "格式无效: ");
        push_str(&mut msg, value);
        Err(EthernetError(string_of(&msg)))
    }
}

/// A value that is present and not blank.
pub open spec fn given(value: Option<Seq<char>>) -> bool {
    value matches Some(v) && trim(v).len() > 0
}

pub open spec fn required_ipv4_outcome(value: Option<Seq<char>>, label: Seq<char>) -> Result<(), Seq<char>> {
    if !given(value) {
        Err(empty_value_message(label))
    } else if is_ipv4(trim(value->0)) {
        Ok(())
    } else {
        Err(invalid_ipv4_message(label, value->0))
    }
}

pub open spec fn optional_ipv4_outcome(value: Option<Seq<char>>, label: Seq<char>) -> Result<(), Seq<char>> {
    if given(value) && !is_ipv4(trim(value->0)) {
        Err(invalid_ipv4_message(label, value->0))
    } else {
        Ok(())
    }
}

pub open spec fn error_view(r: Result<(), EthernetError>) -> Result<(), Seq<char>> {
    match r {
        Ok(()) => Ok(()),
        Err(e) => Err(e.0@),
    }
}

pub fn require_ipv4(value: Option<&str>, label: &str) -> (r: Result<(), EthernetError>)
    ensures
        error_view(r) == required_ipv4_outcome(
            match value {
                Some(v) => Some(v@),
                None => None,
            },
            label@,
        ),
{
    match value {
        Some(v) if trim_str(v).len() > 0 => parse_ipv4(v, label),
        _ => {
            let mut msg = chars_of(label);
            push_str(&mut msg, "不能为空");
            Err(EthernetError(string_of(&msg)))
        },
    }
}

pub fn validate_optional_ipv4(value: Option<&str>, label: &str) -> (r: Result<(), EthernetError>)
    ensures
        error_view(r) == optional_ipv4_outcome(
            match value {
                Some(v) => Some(v@),
                None => None,
            },
            label@,
        ),
{
    match value {
        Some(v) if trim_str(v).len() > 0 => parse_ipv4(v, label),
        _ => Ok(()),
    }
}

/// The first DNS server that is not an address, from `i` on.
pub open spec fn first_bad_dns(ds: Seq<Seq<char>>, i: int) -> int
    decreases ds.len() - i,
{
    if i >= ds.len() || i < 0 {
        -1
    } else if !is_ipv4(trim(ds[i])) {
        i
    } else {
        first_bad_dns(ds, i + 1)
    }
}

/// The outcome of validating settings: DHCP needs nothing; static settings
/// need an address and a netmask, and every address given must be one, the
/// first failure in the order address, netmask, gateway, DNS servers.
pub open spec fn validation_outcome(s: EthernetSettingsView) -> Result<(), Seq<char>> {
    match s.mode {
        EthernetMode::Dhcp => Ok(()),
        EthernetMode::Static => {
            let a = required_ipv4_outcome(s.address, "静态 IP 地址"@);
            let n = required_ipv4_outcome(s.netmask, "子网掩码"@);
            let g = optional_ipv4_outcome(s.gateway, "网关"@);
            let k = first_bad_dns(s.dns_nameservers, 0);
            if a is Err {
                a
            } else if n is Err {
                n
            } else if g is Err {
                g
            } else if k >= 0 {
                Err(invalid_ipv4_message("DNS 服务器"@, s.dns_nameservers[k]))
            } else {
                Ok(())
            }
        },
    }
}

/// The first bad DNS server from `i` on is one that is not an address,
/// and none is found exactly when every server from `i` on is one.
proof fn lemma_first_bad_dns(ds: Seq<Seq<char>>, i: int)
    requires
        0 <= i,
    ensures
        first_bad_dns(ds, i) < 0 <==> forall|j: int| i <= j < ds.len() ==> is_ipv4(trim(#[trigger] ds[j])),
        first_bad_dns(ds, i) >= 0 ==> i <= first_bad_dns(ds, i) < ds.len() && !is_ipv4(trim(ds[first_bad_dns(ds, i)])),
    decreases ds.len() - i,
{
    if i < ds.len() {
        lemma_first_bad_dns(ds, i + 1);
    }
}

/// Which settings validation accepts: all DHCP settings; static settings
/// exactly when the address and the netmask are present, not blank and
/// addresses once trimmed, the gateway is missing, blank or an address,
/// and every DNS server is an address. So a static configuration without a
/// gateway is accepted.
pub proof fn law_validation_accepts(s: EthernetSettingsView)
    ensures
        (validation_outcome(s) is Ok) <==> (s.mode == EthernetMode::Dhcp || {
            &&& s.address matches Some(a) && trim(a).len() > 0 && is_ipv4(trim(a))
            &&& s.netmask matches Some(n) && trim(n).len() > 0 && is_ipv4(trim(n))
            &&& (s.gateway matches Some(g) ==> (trim(g).len() > 0 ==> is_ipv4(trim(g))))
            &&& forall|k: int| 0 <= k < s.dns_nameservers.len() ==> is_ipv4(trim(#[trigger] s.dns_nameservers[k]))
        }),
{
    lemma_first_bad_dns(s.dns_nameservers, 0);
}

fn opt_str(o: &Option<String>) -> (r: Option<&str>)
    ensures
        match r {
            Some(v) => text_of(*o) == Some(v@),
            None => o is None,
        },
{
    match o {
        Some(s) => Some(s.as_str()),
        None => None,
    }
}

pub fn validate_settings(settings: &EthernetSettings) -> (r: Result<(), EthernetError>)
    ensures
        error_view(r) == validation_outcome(settings@),
{
    match settings.mode {
        EthernetMode::Dhcp => Ok(()),
        EthernetMode::Static => {
            let a = require_ipv4(opt_str(&settings.address), "静态 IP 地址");
            if a.is_err() {
                return a;
            }
            let n = require_ipv4(opt_str(&settings.netmask), "子网掩码");
            if n.is_err() {
                return n;
            }
            let g = validate_optional_ipv4(opt_str(&settings.gateway), "网关");
            if g.is_err() {
                return g;
            }
            let ghost ds = settings@.dns_nameservers;
            let mut i: usize = 0;
            while i < settings.dns_nameservers.len()
                invariant
                    i <= settings.dns_nameservers.len(),
                    ds == settings@.dns_nameservers,
                    ds.len() == settings.dns_nameservers.len(),
                    first_bad_dns(ds, 0) == first_bad_dns(ds, i as int),
                    settings.mode == EthernetMode::Static,
                    required_ipv4_outcome(settings@.address, "静态 IP 地址"@) is Ok,
                    required_ipv4_outcome(settings@.netmask, "子网掩码"@) is Ok,
                    optional_ipv4_outcome(settings@.gateway, "网关"@) is Ok,
                decreases settings.dns_nameservers.len() - i,
            {
                let r = parse_ipv4(settings.dns_nameservers[i].as_str(), "DNS 服务器");
                assert(ds[i as int] == settings.dns_nameservers@[i as int]@);
                if r.is_err() {
                    assert(first_bad_dns(ds, i as int) == i);
                    return r;
                }
                i += 1;
            }
            Ok(())
        },
    }
}


pub open spec fn trimmed_or_empty(o: Option<Seq<char>>) -> Seq<char> {
    match o {
        Some(v) => trim(v),
        None => seq![],
    }
}


pub open spec fn header_lines(iface: Seq<char>, method: Seq<char>) -> Seq<Seq<char>> {
    seq![
        "auto "@ + iface,
        "iface "@ + iface + " inet "@ + method,
        "    pre-up /etc/network/nfs_check"@,
        "    pre-up /usr/sbin/eth-mac-prepare "@ + iface,
    ]
}

pub open spec fn gateway_lines(gateway: Option<Seq<char>>) -> Seq<Seq<char>> {
    let g = trimmed_or_empty(gateway);
    if g.len() > 0 {
        seq!["    gateway "@ + g]
    } else {
        seq![]
    }
}

pub open spec fn dns_lines(dns: Seq<Seq<char>>) -> Seq<Seq<char>> {
    let ds = nonblank_trimmed(dns);
    if ds.len() > 0 {
        seq!["    dns-nameservers "@ + join(ds, ' ')]
    } else {
        seq![]
    }
}

/// The lines of the configuration file for `iface` with settings `s`.
pub open spec fn config_lines(iface: Seq<char>, s: EthernetSettingsView) -> Seq<Seq<char>> {
    match s.mode {
        EthernetMode::Dhcp => header_lines(iface, "dhcp"@) + seq![
            "    wait-delay 15"@,
            "    hostname $(hostname)"@,
        ],
        EthernetMode::Static => header_lines(iface, "static"@) + seq![
            "    address "@ + trimmed_or_empty(s.address),
            "    netmask "@ + trimmed_or_empty(s.netmask),
        ] + gateway_lines(s.gateway) + dns_lines(s.dns_nameservers),
    }
}

pub open spec fn rendered_config(iface: Seq<char>, s: EthernetSettingsView) -> Seq<char> {
    unlines(config_lines(iface, s))
}

fn unlines_chars(ls: &Vec<Vec<char>>) -> (out: Vec<char>)
    ensures
        out@ == unlines(ls.deep_view()),
{
    let mut out: Vec<char> = Vec::new();
    let mut i: usize = 0;
    let ghost lv = ls.deep_view();
    while i < ls.len()
        invariant
            i <= ls.len(),
            lv == ls.deep_view(),
            out@ == unlines(lv.subrange(0, i as int)),
        decreases ls.len() - i,
    {
        assert(ls@[i as int].deep_view() =~= ls@[i as int]@);
        assert(lv.subrange(0, i + 1).drop_last() =~= lv.subrange(0, i as int));
        push_all(&mut out, &ls[i]);
        out.push('\n');
        assert(out@ =~= unlines(lv.subrange(0, i + 1)));
        i += 1;
    }
    assert(lv.subrange(0, ls.len() as int) =~= lv);
    out
}

fn trimmed_value(o: &Option<String>) -> (out: Vec<char>)
    ensures
        out@ == trimmed_or_empty(text_of(*o)),
{
    match o {
        Some(v) => trim_str(v.as_str()),
        None => Vec::new(),
    }
}

fn nonblank_values(ds: &Vec<String>) -> (out: Vec<Vec<char>>)
    ensures
        out.deep_view() == nonblank_trimmed(ds@.map_values(|s: String| s@)),
{
    let ghost dv = ds@.map_values(|s: String| s@);
    let mut out: Vec<Vec<char>> = Vec::new();
    let mut i: usize = 0;
    while i < ds.len()
        invariant
            i <= ds.len(),
            dv == ds@.map_values(|s: String| s@),
            out.deep_view() == nonblank_trimmed(dv.subrange(0, i as int)),
        decreases ds.len() - i,
    {
        assert(dv.subrange(0, i + 1).drop_last() =~= dv.subrange(0, i as int));
        let t = trim_str(ds[i].as_str());
        if t.len() > 0 {
            let ghost before = out.deep_view();
            out.push(t);
            assert(t.deep_view() =~= t@);
            assert(out.deep_view() =~= before.push(t@));
        }
        i += 1;
    }
    assert(dv.subrange(0, ds.len() as int) =~= dv);
    out
}

fn line_with(prefix: &str, rest: &Vec<char>) -> (out: Vec<char>)
    ensures
        out@ == prefix@ + rest@,
{
    let mut out = chars_of(prefix);
    push_all(&mut out, rest);
    out
}

/// The configuration file for `iface` with `settings`; values are trimmed,
/// and a blank gateway or DNS server is left out.
pub fn render_config(iface: &str, settings: &EthernetSettings) -> (out: String)
    ensures
        out@ == rendered_config(iface@, settings@),
{
    let iv = chars_of(iface);
    let mut ls: Vec<Vec<char>> = Vec::new();
    ls.push(line_with("auto ", &iv));
    let mut second = line_with("iface ", &iv);
    match settings.mode {
        EthernetMode::Dhcp => push_str(&mut second, " inet dhcp"),
        EthernetMode::Static => push_str(&mut second, " inet static"),
    }
    ls.push(second);
    ls.push(chars_of("    pre-up /etc/network/nfs_check"));
    ls.push(line_with("    pre-up /usr/sbin/eth-mac-prepare ", &iv));
    let ghost head = ls.deep_view();
    proof {
        crate::text::lemma_deep_chars(ls);
        reveal_strlit(" inet dhcp");
        reveal_strlit(" inet ");
        reveal_strlit("dhcp");
        reveal_strlit(" inet static");
        reveal_strlit("static");
        let method = match settings.mode {
            EthernetMode::Dhcp => "dhcp"@,
            EthernetMode::Static => "static"@,
        };
        assert(" inet dhcp"@ =~= " inet "@ + "dhcp"@);
        assert(" inet static"@ =~= " inet "@ + "static"@);
        assert(head[1] =~= "iface "@ + iface@ + " inet "@ + method);
        assert(head =~= header_lines(iface@, method));
    }
    match settings.mode {
        EthernetMode::Dhcp => {
            ls.push(chars_of("    wait-delay 15"));
            ls.push(chars_of("    hostname $(hostname)"));
            proof {
                crate::text::lemma_deep_chars(ls);
            }
            assert(ls.deep_view() =~= config_lines(iface@, settings@));
        },
        EthernetMode::Static => {
            ls.push(line_with("    address ", &trimmed_value(&settings.address)));
            ls.push(line_with("    netmask ", &trimmed_value(&settings.netmask)));
            proof {
                crate::text::lemma_deep_chars(ls);
            }
            let ghost base = ls.deep_view();
            let g = trimmed_value(&settings.gateway);
            if g.len() > 0 {
                ls.push(line_with("    gateway ", &g));
            }
            proof {
                crate::text::lemma_deep_chars(ls);
            }
            let ghost with_gateway = ls.deep_view();
            assert(with_gateway =~= base + gateway_lines(settings@.gateway));
            let ds = nonblank_values(&settings.dns_nameservers);
            if ds.len() > 0 {
                let joined = crate::text::join_from(&ds, 0, ' ');
                assert(ds.deep_view().subrange(0, ds.len() as int) =~= ds.deep_view());
                ls.push(line_with("    dns-nameservers ", &joined));
            }
            proof {
                crate::text::lemma_deep_chars(ls);
            }
            assert(ls.deep_view() =~= with_gateway + dns_lines(settings@.dns_nameservers));
            assert(ls.deep_view() =~= config_lines(iface@, settings@));
        },
    }
    string_of(&unlines_chars(&ls))
}


/// The settings after reading one line of the file: a trimmed line that is
/// not blank or a comment sets the value its first word names, to its
/// second word (or none); `dns-nameservers` takes all the words after it.
pub open spec fn settings_after_line(acc: EthernetSettingsView, line: Seq<char>) -> EthernetSettingsView {
    let t = trim(line);
    let w = words(t);
    if t.len() == 0 || t[0] == '#' || w.len() == 0 {
        acc
    } else {
        settings_after_words(acc, w)
    }
}

/// The settings after a line whose words are `w`: the first word names
/// the value, and the second word (or none) is set to it;
/// `dns-nameservers` takes all the words after it.
pub open spec fn settings_after_words(acc: EthernetSettingsView, w: Seq<Seq<char>>) -> EthernetSettingsView {
    let second = if w.len() > 1 {
        Some(w[1])
    } else {
        None
    };
    if w[0] == "address"@ {
        EthernetSettingsView { address: second, ..acc }
    } else if w[0] == "netmask"@ {
        EthernetSettingsView { netmask: second, ..acc }
    } else if w[0] == "gateway"@ {
        EthernetSettingsView { gateway: second, ..acc }
    } else if w[0] == "dns-nameservers"@ {
        EthernetSettingsView { dns_nameservers: w.subrange(1, w.len() as int), ..acc }
    } else {
        acc
    }
}

pub open spec fn settings_after_lines(init: EthernetSettingsView, ls: Seq<Seq<char>>) -> EthernetSettingsView
    decreases ls.len(),
{
    if ls.len() == 0 {
        init
    } else {
        settings_after_line(settings_after_lines(init, ls.drop_last()), ls.last())
    }
}

/// The mode a configuration text declares: static when it holds ` inet static`.
pub open spec fn declared_mode(raw: Seq<char>) -> EthernetMode {
    if contains_seq(raw, " inet static"@) {
        EthernetMode::Static
    } else {
        EthernetMode::Dhcp
    }
}

/// The settings that a configuration text holds.
pub open spec fn parsed_settings(raw: Seq<char>) -> EthernetSettingsView {
    settings_after_lines(
        EthernetSettingsView {
            mode: declared_mode(raw),
            address: None,
            netmask: None,
            gateway: None,
            dns_nameservers: seq![],
        },
        lines(raw),
    )
}

fn strings_from(ws: &Vec<Vec<char>>, from: usize) -> (out: Vec<String>)
    requires
        from <= ws.len(),
    ensures
        out@.map_values(|s: String| s@) == ws.deep_view().subrange(from as int, ws.len() as int),
{
    let mut out: Vec<String> = Vec::new();
    let mut i = from;
    proof {
        crate::text::lemma_deep_chars(*ws);
    }
    while i < ws.len()
        invariant
            from <= i <= ws.len(),
            forall|j: int| 0 <= j < ws@.len() ==> #[trigger] ws.deep_view()[j] == ws@[j]@,
            ws.deep_view().len() == ws@.len(),
            out@.map_values(|s: String| s@) == ws.deep_view().subrange(from as int, i as int),
        decreases ws.len() - i,
    {
        let ghost before = out@.map_values(|s: String| s@);
        let item = string_of(&ws[i]);
        out.push(item);
        assert(out@.map_values(|s: String| s@) =~= before.push(ws@[i as int]@));
        assert(ws.deep_view().subrange(from as int, i + 1) =~= ws.deep_view().subrange(
            from as int,
            i as int,
        ).push(ws.deep_view()[i as int]));
        i += 1;
    }
    out
}

/// The settings that a configuration text holds: its mode, and the last
/// address, netmask, gateway and DNS servers it gives.
pub fn parse_ethernet_settings(raw: &str) -> (s: EthernetSettings)
    ensures
        s@ == parsed_settings(raw@),
{
    let rv = chars_of(raw);
    let mode = if contains_chars(&rv, &chars_of(" inet static")) {
        EthernetMode::Static
    } else {
        EthernetMode::Dhcp
    };
    let mut settings = EthernetSettings {
        mode,
        address: None,
        netmask: None,
        gateway: None,
        dns_nameservers: Vec::new(),
    };
    let ghost init = settings@;
    assert(init.dns_nameservers =~= Seq::<Seq<char>>::empty());
    let ls = split_lines_of(&rv);
    let ghost lv = lines(raw@);
    let mut i: usize = 0;
    while i < ls.len()
        invariant
            i <= ls.len(),
            ls.deep_view() == lv,
            settings@ == settings_after_lines(init, lv.subrange(0, i as int)),
        decreases ls.len() - i,
    {
        assert(ls@[i as int].deep_view() =~= ls@[i as int]@);
        assert(lv.subrange(0, i + 1).drop_last() =~= lv.subrange(0, i as int));
        let t = trim_chars(&ls[i]);
        let w = split_words(&t);
        if t.len() == 0 || t[0] == '#' || w.len() == 0 {
        } else {
            proof {
                crate::text::lemma_deep_chars(w);
            }
            let second: Option<String> = if w.len() > 1 {
                Some(string_of(&w[1]))
            } else {
                None
            };
            if eq_chars(&w[0], &chars_of("address")) {
                settings.address = second;
            } else if eq_chars(&w[0], &chars_of("netmask")) {
                settings.netmask = second;
            } else if eq_chars(&w[0], &chars_of("gateway")) {
                settings.gateway = second;
            } else if eq_chars(&w[0], &chars_of("dns-nameservers")) {
                settings.dns_nameservers = strings_from(&w, 1);
            }
        }
        i += 1;
    }
    assert(lv.subrange(0, ls.len() as int) =~= lv);
    settings
}

fn split_lines_of(v: &Vec<char>) -> (out: Vec<Vec<char>>)
    ensures
        out.deep_view() == lines(v@),
{
    crate::text::split_lines(v)
}

/// The name of a mode as the status shows it.
pub open spec fn mode_name(mode: EthernetMode) -> Seq<char> {
    match mode {
        EthernetMode::Dhcp => "dhcp"@,
        EthernetMode::Static => "static"@,
    }
}

pub fn mode_text(mode: EthernetMode) -> (s: String)
    ensures
        s@ == mode_name(mode),
{
    match mode {
        EthernetMode::Dhcp => String::from_str("dhcp"),
        EthernetMode::Static => String::from_str("static"),
    }
}

/// The configuration file as read: a file that cannot be read reads as empty.
pub fn config_view(iface: &str, path: &str, raw: Option<String>) -> (c: EthernetConfigView)
    ensures
        c.iface@ == iface@,
        c.path@ == path@,
        c.raw@ == (match raw {
            Some(r) => r@,
            None => Seq::<char>::empty(),
        }),
        c.settings@ == parsed_settings(c.raw@),
{
    let raw = match raw {
        Some(r) => r,
        None => String::new(),
    };
    let settings = parse_ethernet_settings(raw.as_str());
    EthernetConfigView {
        iface: String::from_str(iface),
        path: String::from_str(path),
        settings,
        raw,
    }
}

/// The outcome of restarting the network service: its output (standard
/// output then standard error) trimmed, as the reply or in the failure.
pub open spec fn restart_outcome(success: bool, stdout: Seq<char>, stderr: Seq<char>) -> Result<Seq<char>, Seq<char>> {
    let text = trim(stdout + stderr);
    if success {
        Ok(text)
    } else {
        Err("网络服务重启失败: "@ + text)
    }
}

pub fn restart_result(success: bool, stdout: &str, stderr: &str) -> (r: Result<String, EthernetError>)
    ensures
        match r {
            Ok(t) => restart_outcome(success, stdout@, stderr@) == Ok::<Seq<char>, Seq<char>>(t@),
            Err(e) => restart_outcome(success, stdout@, stderr@) == Err::<Seq<char>, Seq<char>>(e.0@),
        },
{
    let mut text = chars_of(stdout);
    push_str(&mut text, stderr);
    let t = trim_chars(&text);
    if success {
        Ok(string_of(&t))
    } else {
        let mut msg = chars_of("网络服务重启失败: ");
        push_all(&mut msg, &t);
        Err(EthernetError(string_of(&msg)))
    }
}

} // verus!

verus! {

/// The settings that a configuration file written from `s` holds: none
/// for DHCP; for static addressing the trimmed values, a gateway only when
/// one is given, and the DNS servers that are not blank.
pub open spec fn stored_settings(s: EthernetSettingsView) -> EthernetSettingsView {
    match s.mode {
        EthernetMode::Dhcp => EthernetSettingsView {
            mode: EthernetMode::Dhcp,
            address: None,
            netmask: None,
            gateway: None,
            dns_nameservers: seq![],
        },
        EthernetMode::Static => EthernetSettingsView {
            mode: EthernetMode::Static,
            address: kept_value(s.address),
            netmask: kept_value(s.netmask),
            gateway: kept_value(s.gateway),
            dns_nameservers: nonblank_trimmed(s.dns_nameservers),
        },
    }
}

/// A value as a configuration file keeps it: trimmed, and none when it is
/// missing or blank.
pub open spec fn kept_value(value: Option<Seq<char>>) -> Option<Seq<char>> {
    if given(value) {
        Some(trim(value->0))
    } else {
        None
    }
}

/// Static settings whose values, once trimmed, are single words (no
/// whitespace inside), as every address is. DHCP settings qualify whatever
/// they hold, since none of their values is written.
pub open spec fn single_word_values(s: EthernetSettingsView) -> bool {
    s.mode == EthernetMode::Static ==> {
        &&& (s.address matches Some(v) ==> !has_ws(trim(v)))
        &&& (s.netmask matches Some(v) ==> !has_ws(trim(v)))
        &&& (s.gateway matches Some(v) ==> !has_ws(trim(v)))
        &&& forall|k: int| 0 <= k < s.dns_nameservers.len() ==> !has_ws(trim(#[trigger] s.dns_nameservers[k]))
    }
}

/// The DNS servers that are kept are single, non-empty words when every
/// server trims to a single word.
proof fn lemma_nonblank_words(ds: Seq<Seq<char>>)
    requires
        forall|j: int| 0 <= j < ds.len() ==> !has_ws(trim(#[trigger] ds[j])),
    ensures
        forall|k: int| 0 <= k < nonblank_trimmed(ds).len() ==> (#[trigger] nonblank_trimmed(ds)[k]).len() > 0
            && !has_ws(nonblank_trimmed(ds)[k]),
    decreases ds.len(),
{
    if ds.len() > 0 {
        assert forall|j: int| 0 <= j < ds.drop_last().len() implies !has_ws(trim(#[trigger] ds.drop_last()[j])) by {
            assert(ds.drop_last()[j] == ds[j]);
        }
        lemma_nonblank_words(ds.drop_last());
        assert(!has_ws(trim(ds[ds.len() - 1])));
        let prev = nonblank_trimmed(ds.drop_last());
        assert(ds.last() == ds[ds.len() - 1]);
        assert forall|k: int| 0 <= k < nonblank_trimmed(ds).len() implies (#[trigger] nonblank_trimmed(ds)[k]).len() > 0
            && !has_ws(nonblank_trimmed(ds)[k]) by {
            if k < prev.len() {
                assert(nonblank_trimmed(ds)[k] == prev[k]);
            }
        }
    }
}

/// Stripping a final carriage return leaves a prefix that does not end in one.
proof fn lemma_strip_cr_append(a: Seq<char>, r: Seq<char>)
    requires
        a.len() > 0,
        a.last() != '\r',
    ensures
        strip_cr(a + r) == a + strip_cr(r),
{
    if r.len() > 0 {
        assert((a + r).last() == r.last());
        if r.last() == '\r' {
            assert((a + r).drop_last() =~= a + r.drop_last());
        }
    } else {
        assert(a + r =~= a);
        assert((a + r).last() == a.last());
    }
}

proof fn lemma_single_word(v: Seq<char>)
    requires
        v.len() > 0,
        !has_ws(v),
    ensures
        words(v) == seq![v],
{
    crate::text::lemma_words_first(v, Seq::<char>::empty());
    assert(v + Seq::<char>::empty() =~= v);
    assert(words(Seq::<char>::empty()) =~= Seq::<Seq<char>>::empty());
    assert(seq![v].add(Seq::<Seq<char>>::empty()) =~= seq![v]);
}

/// A line made of indentation, a word, a space and the rest trims to a
/// line that starts with the word, and its words are that word and the
/// words of the rest.
proof fn lemma_keyword_line(sp: Seq<char>, w: Seq<char>, r: Seq<char>)
    requires
        crate::text::all_ws(sp),
        w.len() > 0,
        !has_ws(w),
    ensures
        trim(sp + w + seq![' '] + r).len() > 0,
        trim(sp + w + seq![' '] + r)[0] == w[0],
        words(trim(sp + w + seq![' '] + r)) == seq![w] + words(r),
{
    let l = sp + w + seq![' '] + r;
    let q = w + (seq![' '] + r);
    assert(l =~= sp + q);
    assert(q[0] == w[0]);
    assert(!is_ws(w[0])) by {
        if is_ws(w[0]) {
            assert(has_ws(w));
        }
    }
    crate::text::lemma_trim_first(sp, q);
    crate::text::lemma_words_trim(l);
    crate::text::lemma_words_ws_prefix(sp, q);
    assert(is_ws(' '));
    assert(seq![' '].len() > 0 ==> is_ws(seq![' '][0]));
    assert((seq![' '] + r).len() > 0 ==> is_ws((seq![' '] + r)[0]));
    crate::text::lemma_words_first(w, seq![' '] + r);
    assert(crate::text::all_ws(seq![' ']));
    crate::text::lemma_words_ws_prefix(seq![' '], r);
}

/// One step of reading lines.
proof fn lemma_settings_step(init: EthernetSettingsView, m: Seq<Seq<char>>, i: int)
    requires
        0 <= i < m.len(),
    ensures
        settings_after_lines(init, m.subrange(0, i + 1)) == settings_after_line(
            settings_after_lines(init, m.subrange(0, i)),
            m[i],
        ),
{
    assert(m.subrange(0, i + 1).drop_last() =~= m.subrange(0, i));
    assert(m.subrange(0, i + 1).last() == m[i]);
}


/// What a line of indentation, a word, a space and the rest does to the
/// settings, once read back from the file.
proof fn lemma_line_effect(acc: EthernetSettingsView, sp: Seq<char>, w: Seq<char>, r: Seq<char>)
    requires
        crate::text::all_ws(sp),
        w.len() > 0,
        !has_ws(w),
        w[0] != '#',
    ensures
        settings_after_line(acc, strip_cr(sp + w + seq![' '] + r)) == settings_after_words(
            acc,
            seq![w] + words(strip_cr(r)),
        ),
{
    let a = sp + w + seq![' '];
    assert(a.last() == ' ');
    lemma_strip_cr_append(a, r);
    assert(sp + w + seq![' '] + r == a + r);
    lemma_keyword_line(sp, w, strip_cr(r));
}

proof fn lemma_octet_no_ws(p: Seq<char>)
    requires
        is_octet(p),
    ensures
        p.len() > 0,
        !has_ws(p),
{
    if has_ws(p) {
        let j = choose|j: int| 0 <= j < p.len() && is_ws(#[trigger] p[j]);
        assert(digit_value(p[j], 10) >= 0);
    }
}

/// An IPv4 address in dotted form is not empty and holds no whitespace.
pub proof fn lemma_ipv4_shape(v: Seq<char>)
    requires
        is_ipv4(v),
    ensures
        v.len() > 0,
        !has_ws(v),
{
    let parts = split_on(v, '.');
    assert forall|i: int| 0 <= i < parts.len() implies !has_ws(#[trigger] parts[i]) by {
        assert(is_octet(parts[i]));
        lemma_octet_no_ws(parts[i]);
    }
    assert(is_octet(parts[0]));
    lemma_octet_no_ws(parts[0]);
    crate::text::lemma_split_no_ws(v, '.');
}

proof fn lemma_dns_valid(ds: Seq<Seq<char>>, i: int)
    requires
        0 <= i,
        first_bad_dns(ds, i) < 0,
    ensures
        forall|j: int| i <= j < ds.len() ==> is_ipv4(trim(#[trigger] ds[j])),
    decreases ds.len() - i,
{
    if i < ds.len() {
        lemma_dns_valid(ds, i + 1);
    }
}

proof fn lemma_join_last(ps: Seq<Seq<char>>, sep: char)
    requires
        ps.len() > 0,
        ps.last().len() > 0,
    ensures
        join(ps, sep).len() > 0,
        join(ps, sep).last() == ps.last().last(),
{
}

proof fn lemma_join_no_newline(ps: Seq<Seq<char>>)
    requires
        forall|k: int| 0 <= k < ps.len() ==> !has_ws(#[trigger] ps[k]),
    ensures
        forall|j: int| 0 <= j < join(ps, ' ').len() ==> #[trigger] join(ps, ' ')[j] != '\n',
    decreases ps.len(),
{
    if ps.len() > 1 {
        assert forall|k: int| 0 <= k < ps.drop_last().len() implies !has_ws(
            #[trigger] ps.drop_last()[k],
        ) by {
            assert(ps.drop_last()[k] == ps[k]);
        }
        lemma_join_no_newline(ps.drop_last());
        let a = join(ps.drop_last(), ' ');
        let l = ps.last();
        assert(!has_ws(ps[ps.len() - 1]));
        assert forall|j: int| 0 <= j < join(ps, ' ').len() implies #[trigger] join(ps, ' ')[j]
            != '\n' by {
            if j < a.len() {
                assert(join(ps, ' ')[j] == a[j]);
            } else if j > a.len() {
                assert(join(ps, ' ')[j] == l[j - a.len() - 1]);
                if l[j - a.len() - 1] == '\n' {
                    assert(is_ws(l[j - a.len() - 1]));
                }
            }
        }
    } else if ps.len() == 1 {
        assert(!has_ws(ps[0]));
        assert forall|j: int| 0 <= j < ps[0].len() implies #[trigger] ps[0][j] != '\n' by {
            if ps[0][j] == '\n' {
                assert(is_ws(ps[0][j]));
            }
        }
    }
}


proof fn lemma_neutral_words(acc: EthernetSettingsView, w: Seq<char>, x: Seq<Seq<char>>)
    requires
        w.len() != 7,
        w.len() != 15,
    ensures
        settings_after_words(acc, seq![w] + x) == acc,
{
    reveal_strlit("address");
    reveal_strlit("netmask");
    reveal_strlit("gateway");
    reveal_strlit("dns-nameservers");
    assert((seq![w] + x)[0] == w);
}

proof fn lemma_value_words(acc: EthernetSettingsView, sp: Seq<char>, w: Seq<char>, v: Seq<char>)
    requires
        crate::text::all_ws(sp),
        w.len() > 0,
        !has_ws(w),
        w[0] != '#',
        v.len() > 0,
        !has_ws(v),
    ensures
        settings_after_line(acc, strip_cr(sp + w + seq![' '] + v)) == settings_after_words(
            acc,
            seq![w, v],
        ),
{
    lemma_line_effect(acc, sp, w, v);
    assert(v.last() != '\r') by {
        if v.last() == '\r' {
            assert(is_ws(v[v.len() - 1]));
        }
    }
    lemma_single_word(v);
    assert(seq![w] + seq![v] =~= seq![w, v]);
}

/// The lines that every configuration file starts with change no setting.
proof fn lemma_header_neutral(acc: EthernetSettingsView, iface: Seq<char>, method: Seq<char>, i: int)
    requires
        0 <= i < 4,
    ensures
        settings_after_line(acc, strip_cr(header_lines(iface, method)[i])) == acc,
{
    reveal_strlit("auto ");
    reveal_strlit("auto");
    reveal_strlit("iface ");
    reveal_strlit("iface");
    reveal_strlit(" inet ");
    reveal_strlit("    pre-up /etc/network/nfs_check");
    reveal_strlit("    pre-up /usr/sbin/eth-mac-prepare ");
    reveal_strlit("    ");
    reveal_strlit("pre-up");
    reveal_strlit("/etc/network/nfs_check");
    reveal_strlit("/usr/sbin/eth-mac-prepare ");
    let h = header_lines(iface, method);
    let none = Seq::<char>::empty();
    let indent = "    "@;
    assert(indent =~= seq![' ', ' ', ' ', ' ']);
    assert(crate::text::all_ws(none));
    assert(crate::text::all_ws(indent));
    if i == 0 {
        assert(h[0] =~= none + "auto"@ + seq![' '] + iface);
        lemma_line_effect(acc, none, "auto"@, iface);
        lemma_neutral_words(acc, "auto"@, words(strip_cr(iface)));
    } else if i == 1 {
        let r = iface + " inet "@ + method;
        assert(h[1] =~= none + "iface"@ + seq![' '] + r);
        lemma_line_effect(acc, none, "iface"@, r);
        lemma_neutral_words(acc, "iface"@, words(strip_cr(r)));
    } else if i == 2 {
        let r = "/etc/network/nfs_check"@;
        assert(h[2] =~= indent + "pre-up"@ + seq![' '] + r);
        lemma_line_effect(acc, indent, "pre-up"@, r);
        lemma_neutral_words(acc, "pre-up"@, words(strip_cr(r)));
    } else {
        let r = "/usr/sbin/eth-mac-prepare "@ + iface;
        assert(h[3] =~= indent + "pre-up"@ + seq![' '] + r);
        lemma_line_effect(acc, indent, "pre-up"@, r);
        lemma_neutral_words(acc, "pre-up"@, words(strip_cr(r)));
    }
}

/// The two lines that end a DHCP configuration change no setting.
proof fn lemma_dhcp_tail_neutral(acc: EthernetSettingsView, i: int)
    requires
        0 <= i < 2,
    ensures
        settings_after_line(
            acc,
            strip_cr(seq!["    wait-delay 15"@, "    hostname $(hostname)"@][i]),
        ) == acc,
{
    reveal_strlit("    wait-delay 15");
    reveal_strlit("    hostname $(hostname)");
    reveal_strlit("    ");
    reveal_strlit("wait-delay");
    reveal_strlit("15");
    reveal_strlit("hostname");
    reveal_strlit("$(hostname)");
    let indent = "    "@;
    assert(indent =~= seq![' ', ' ', ' ', ' ']);
    assert(crate::text::all_ws(indent));
    if i == 0 {
        let r = "15"@;
        assert("    wait-delay 15"@ =~= indent + "wait-delay"@ + seq![' '] + r);
        lemma_line_effect(acc, indent, "wait-delay"@, r);
        lemma_neutral_words(acc, "wait-delay"@, words(strip_cr(r)));
    } else {
        let r = "$(hostname)"@;
        assert("    hostname $(hostname)"@ =~= indent + "hostname"@ + seq![' '] + r);
        lemma_line_effect(acc, indent, "hostname"@, r);
        lemma_neutral_words(acc, "hostname"@, words(strip_cr(r)));
    }
}


/// The address, netmask and gateway lines set their value.
proof fn lemma_value_lines(acc: EthernetSettingsView, v: Seq<char>)
    requires
        v.len() > 0,
        !has_ws(v),
    ensures
        settings_after_line(acc, strip_cr("    address "@ + v)) == (EthernetSettingsView {
            address: Some(v),
            ..acc
        }),
        settings_after_line(acc, strip_cr("    netmask "@ + v)) == (EthernetSettingsView {
            netmask: Some(v),
            ..acc
        }),
        settings_after_line(acc, strip_cr("    gateway "@ + v)) == (EthernetSettingsView {
            gateway: Some(v),
            ..acc
        }),
{
    reveal_strlit("    address ");
    reveal_strlit("    netmask ");
    reveal_strlit("    gateway ");
    reveal_strlit("    ");
    reveal_strlit("address");
    reveal_strlit("netmask");
    reveal_strlit("gateway");
    reveal_strlit("dns-nameservers");
    let indent = "    "@;
    assert(indent =~= seq![' ', ' ', ' ', ' ']);
    assert(crate::text::all_ws(indent));
    assert("    address "@ + v =~= indent + "address"@ + seq![' '] + v);
    assert("    netmask "@ + v =~= indent + "netmask"@ + seq![' '] + v);
    assert("    gateway "@ + v =~= indent + "gateway"@ + seq![' '] + v);
    lemma_value_words(acc, indent, "address"@, v);
    lemma_value_words(acc, indent, "netmask"@, v);
    lemma_value_words(acc, indent, "gateway"@, v);
}

/// An address or netmask line without a value clears that value.
proof fn lemma_blank_value_lines(acc: EthernetSettingsView)
    ensures
        settings_after_line(acc, strip_cr("    address "@)) == (EthernetSettingsView { address: None, ..acc }),
        settings_after_line(acc, strip_cr("    netmask "@)) == (EthernetSettingsView { netmask: None, ..acc }),
{
    reveal_strlit("    address ");
    reveal_strlit("    netmask ");
    reveal_strlit("    ");
    reveal_strlit("address");
    reveal_strlit("netmask");
    reveal_strlit("gateway");
    reveal_strlit("dns-nameservers");
    let indent = "    "@;
    let none = Seq::<char>::empty();
    assert(indent =~= seq![' ', ' ', ' ', ' ']);
    assert(crate::text::all_ws(indent));
    assert(!has_ws("address"@)) by {
        assert forall|j: int| 0 <= j < "address"@.len() implies !is_ws(#[trigger] "address"@[j]) by {}
    }
    assert(!has_ws("netmask"@)) by {
        assert forall|j: int| 0 <= j < "netmask"@.len() implies !is_ws(#[trigger] "netmask"@[j]) by {}
    }
    assert("    address "@ =~= indent + "address"@ + seq![' '] + none);
    assert("    netmask "@ =~= indent + "netmask"@ + seq![' '] + none);
    lemma_line_effect(acc, indent, "address"@, none);
    lemma_line_effect(acc, indent, "netmask"@, none);
    assert(strip_cr(none) =~= none);
    assert(words(none) =~= Seq::<Seq<char>>::empty());
    assert(seq!["address"@] + Seq::<Seq<char>>::empty() =~= seq!["address"@]);
    assert(seq!["netmask"@] + Seq::<Seq<char>>::empty() =~= seq!["netmask"@]);
}

/// The DNS line sets the servers to the words it lists.
proof fn lemma_dns_line(acc: EthernetSettingsView, ds: Seq<Seq<char>>)
    requires
        ds.len() > 0,
        forall|k: int| 0 <= k < ds.len() ==> (#[trigger] ds[k]).len() > 0 && !has_ws(ds[k]),
    ensures
        settings_after_line(acc, strip_cr("    dns-nameservers "@ + join(ds, ' '))) == (
        EthernetSettingsView { dns_nameservers: ds, ..acc }),
{
    reveal_strlit("    dns-nameservers ");
    reveal_strlit("    ");
    reveal_strlit("address");
    reveal_strlit("netmask");
    reveal_strlit("gateway");
    reveal_strlit("dns-nameservers");
    let indent = "    "@;
    let j = join(ds, ' ');
    assert(indent =~= seq![' ', ' ', ' ', ' ']);
    assert(crate::text::all_ws(indent));
    assert("    dns-nameservers "@ + j =~= indent + "dns-nameservers"@ + seq![' '] + j);
    lemma_line_effect(acc, indent, "dns-nameservers"@, j);
    assert(ds[ds.len() - 1].len() > 0 && !has_ws(ds[ds.len() - 1]));
    lemma_join_last(ds, ' ');
    assert(j.last() != '\r') by {
        let l = ds[ds.len() - 1];
        if j.last() == '\r' {
            assert(l[l.len() - 1] == '\r');
            assert(is_ws(l[l.len() - 1]));
        }
    }
    crate::text::lemma_words_join(ds);
    let w = seq!["dns-nameservers"@] + ds;
    assert(w[0] == "dns-nameservers"@);
    assert(w.subrange(1, w.len() as int) =~= ds);
}

/// The lines of every configuration file, each without a line break.
proof fn lemma_config_lines_no_newline(iface: Seq<char>, s: EthernetSettingsView)
    requires
        no_newline(iface),
        single_word_values(s),
    ensures
        forall|i: int| 0 <= i < config_lines(iface, s).len() ==> no_newline(
            #[trigger] config_lines(iface, s)[i],
        ),
{
    reveal_strlit("auto ");
    reveal_strlit("iface ");
    reveal_strlit(" inet ");
    reveal_strlit("dhcp");
    reveal_strlit("static");
    reveal_strlit("    pre-up /etc/network/nfs_check");
    reveal_strlit("    pre-up /usr/sbin/eth-mac-prepare ");
    reveal_strlit("    wait-delay 15");
    reveal_strlit("    hostname $(hostname)");
    reveal_strlit("    address ");
    reveal_strlit("    netmask ");
    reveal_strlit("    gateway ");
    reveal_strlit("    dns-nameservers ");
    let cl = config_lines(iface, s);
    assert forall|i: int| 0 <= i < cl.len() implies no_newline(#[trigger] cl[i]) by {
        if s.mode == EthernetMode::Static {
            let a = trimmed_or_empty(s.address);
            let n = trimmed_or_empty(s.netmask);
            let g = trimmed_or_empty(s.gateway);
            let ds = nonblank_trimmed(s.dns_nameservers);
            assert(!has_ws(a));
            assert(!has_ws(n));
            assert(!has_ws(g));
            lemma_nonblank_words(s.dns_nameservers);
            assert forall|k: int| 0 <= k < ds.len() implies !has_ws(#[trigger] ds[k]) by {
                assert(ds[k].len() > 0);
            }
            lemma_join_no_newline(ds);
            if i == 4 {
                assert forall|j: int| 0 <= j < cl[4].len() implies #[trigger] cl[4][j] != '\n' by {
                    if j >= 12 && a[j - 12] == '\n' {
                        assert(is_ws(a[j - 12]));
                    }
                }
            } else if i == 5 {
                assert forall|j: int| 0 <= j < cl[5].len() implies #[trigger] cl[5][j] != '\n' by {
                    if j >= 12 && n[j - 12] == '\n' {
                        assert(is_ws(n[j - 12]));
                    }
                }
            } else if i >= 6 && g.len() > 0 && i == 6 {
                assert forall|j: int| 0 <= j < cl[6].len() implies #[trigger] cl[6][j] != '\n' by {
                    if j >= 12 && g[j - 12] == '\n' {
                        assert(is_ws(g[j - 12]));
                    }
                }
            }
        }
    }
}

/// Settings that pass validation have single-word values, so the round
/// trip below covers them.
pub proof fn lemma_valid_settings_are_single_words(s: EthernetSettingsView)
    requires
        validation_outcome(s) is Ok,
    ensures
        single_word_values(s),
{
    if s.mode == EthernetMode::Static {
        lemma_ipv4_shape(trim(s.address->0));
        lemma_ipv4_shape(trim(s.netmask->0));
        if given(s.gateway) {
            lemma_ipv4_shape(trim(s.gateway->0));
        } else if s.gateway is Some {
            assert(trim(s.gateway->0).len() == 0);
            assert(!has_ws(trim(s.gateway->0)));
        }
        lemma_dns_valid(s.dns_nameservers, 0);
        assert forall|k: int| 0 <= k < s.dns_nameservers.len() implies !has_ws(trim(#[trigger] s.dns_nameservers[k])) by {
            lemma_ipv4_shape(trim(s.dns_nameservers[k]));
        }
    }
}

/// Reading back what is written: the configuration file written for
/// `iface` reads back as the settings as stored (`stored_settings`): the
/// mode, and for static addressing each value trimmed, a blank one as none.
/// This holds whenever each static value trims to a single word, as it does
/// for every setting that passes validation. Left out are an interface name
/// holding a line break, which would split the file's lines elsewhere, and
/// DHCP settings whose file text holds ` inet static`, which reads as static.
pub proof fn law_config_round_trip(iface: Seq<char>, s: EthernetSettingsView)
    requires
        no_newline(iface),
        single_word_values(s),
        s.mode == EthernetMode::Dhcp ==> !contains_seq(rendered_config(iface, s), " inet static"@),
    ensures
        parsed_settings(rendered_config(iface, s)) == stored_settings(s),
{
    let cl = config_lines(iface, s);
    let raw = rendered_config(iface, s);
    lemma_config_lines_no_newline(iface, s);
    lemma_lines_unlines(cl);
    let m = cl.map_values(|l: Seq<char>| strip_cr(l));
    assert(lines(raw) == m);
    let init = EthernetSettingsView {
        mode: declared_mode(raw),
        address: None,
        netmask: None,
        gateway: None,
        dns_nameservers: seq![],
    };
    assert(m.subrange(0, 0) =~= Seq::<Seq<char>>::empty());
    if s.mode == EthernetMode::Dhcp {
        let h = header_lines(iface, "dhcp"@);
        let t = seq!["    wait-delay 15"@, "    hostname $(hostname)"@];
        assert(cl =~= h + t);
        assert forall|k: int| 0 <= k < 6 implies settings_after_line(init, #[trigger] m[k]) == init by {
            if k < 4 {
                assert(m[k] == strip_cr(h[k]));
                lemma_header_neutral(init, iface, "dhcp"@, k);
            } else {
                assert(m[k] == strip_cr(t[k - 4]));
                lemma_dhcp_tail_neutral(init, k - 4);
            }
        }
        lemma_settings_step(init, m, 0);
        lemma_settings_step(init, m, 1);
        lemma_settings_step(init, m, 2);
        lemma_settings_step(init, m, 3);
        lemma_settings_step(init, m, 4);
        lemma_settings_step(init, m, 5);
        assert(m.subrange(0, 6) =~= m);
        assert(settings_after_lines(init, m) == init);
    } else {
        lemma_static_round_trip(iface, s, init, m);
    }
}

proof fn lemma_static_round_trip(
    iface: Seq<char>,
    s: EthernetSettingsView,
    init: EthernetSettingsView,
    m: Seq<Seq<char>>,
)
    requires
        s.mode == EthernetMode::Static,
        single_word_values(s),
        m == config_lines(iface, s).map_values(|l: Seq<char>| strip_cr(l)),
        init == (EthernetSettingsView {
            mode: declared_mode(rendered_config(iface, s)),
            address: None,
            netmask: None,
            gateway: None,
            dns_nameservers: seq![],
        }),
    ensures
        settings_after_lines(init, m) == stored_settings(s),
{
    reveal_strlit("iface ");
    reveal_strlit(" inet ");
    reveal_strlit("static");
    reveal_strlit(" inet static");
    let cl = config_lines(iface, s);
    let raw = rendered_config(iface, s);
    let h = header_lines(iface, "static"@);
    let a = trimmed_or_empty(s.address);
    let n = trimmed_or_empty(s.netmask);
    let g = trimmed_or_empty(s.gateway);
    let ds = nonblank_trimmed(s.dns_nameservers);
    let vl = seq!["    address "@ + a, "    netmask "@ + n];
    let gl = gateway_lines(s.gateway);
    let dl = dns_lines(s.dns_nameservers);
    assert(cl =~= h + vl + gl + dl);
    // The second line declares static addressing.
    lemma_unlines_front(cl);
    lemma_unlines_front(cl.drop_first());
    assert(cl.drop_first()[0] == cl[1]);
    let x = cl[0].push('\n') + "iface "@ + iface;
    let p = " inet static"@;
    let y = seq!['\n'] + unlines(cl.drop_first().drop_first());
    assert(p =~= " inet "@ + "static"@);
    assert(raw =~= x + p + y);
    assert(raw.subrange(x.len() as int, x.len() as int + p.len()) =~= p);
    assert(crate::text::occurs_at(raw, p, x.len() as int));
    assert(declared_mode(raw) == EthernetMode::Static);
    assert(kept_value(s.address) == (if a.len() > 0 { Some(a) } else { None }));
    assert(kept_value(s.netmask) == (if n.len() > 0 { Some(n) } else { None }));
    assert(kept_value(s.gateway) == (if g.len() > 0 { Some(g) } else { None }));
    // The values are single words.
    assert(!has_ws(a));
    assert(!has_ws(n));
    assert(!has_ws(g));
    lemma_nonblank_words(s.dns_nameservers);
    // Reading the lines one by one.
    assert forall|k: int| 0 <= k < 4 implies settings_after_line(init, #[trigger] m[k]) == init by {
        assert(m[k] == strip_cr(h[k]));
        lemma_header_neutral(init, iface, "static"@, k);
    }
    lemma_settings_step(init, m, 0);
    lemma_settings_step(init, m, 1);
    lemma_settings_step(init, m, 2);
    lemma_settings_step(init, m, 3);
    let acc5 = EthernetSettingsView { address: kept_value(s.address), ..init };
    let acc6 = EthernetSettingsView { netmask: kept_value(s.netmask), ..acc5 };
    if a.len() > 0 {
        lemma_value_lines(init, a);
    } else {
        assert("    address "@ + a =~= "    address "@);
        lemma_blank_value_lines(init);
    }
    if n.len() > 0 {
        lemma_value_lines(acc5, n);
    } else {
        assert("    netmask "@ + n =~= "    netmask "@);
        lemma_blank_value_lines(acc5);
    }
    assert(m[4] == strip_cr("    address "@ + a));
    assert(m[5] == strip_cr("    netmask "@ + n));
    lemma_settings_step(init, m, 4);
    lemma_settings_step(init, m, 5);
    assert(settings_after_lines(init, m.subrange(0, 6)) == acc6);
    let acc7 = if g.len() > 0 {
        EthernetSettingsView { gateway: Some(g), ..acc6 }
    } else {
        acc6
    };
    let k7: int = if g.len() > 0 { 7 } else { 6 };
    if g.len() > 0 {
        lemma_value_lines(acc6, g);
        assert(m[6] == strip_cr("    gateway "@ + g));
        lemma_settings_step(init, m, 6);
    }
    assert(settings_after_lines(init, m.subrange(0, k7)) == acc7);
    if ds.len() > 0 {
        lemma_dns_line(acc7, ds);
        assert(m[k7] == strip_cr("    dns-nameservers "@ + join(ds, ' ')));
        lemma_settings_step(init, m, k7);
        assert(m.subrange(0, k7 + 1) =~= m);
        assert(settings_after_lines(init, m) == EthernetSettingsView { dns_nameservers: ds, ..acc7 });
    } else {
        assert(m.subrange(0, k7) =~= m);
        assert(settings_after_lines(init, m) == acc7);
        assert(ds =~= Seq::<Seq<char>>::empty());
    }
    assert(acc7.mode == EthernetMode::Static);
    assert(acc7.address == kept_value(s.address));
    assert(acc7.netmask == kept_value(s.netmask));
    assert(acc7.gateway == kept_value(s.gateway));
}

} // verus!

verus! {

/// The address part of an `address/prefix` text: all of it when it has no `/`.
pub open spec fn cidr_address(c: Seq<char>) -> Seq<char> {
    let k = crate::text::index_of_char(c, '/');
    if k < 0 {
        c
    } else {
        c.subrange(0, k)
    }
}

/// The prefix length of an `address/prefix` text, read as a `u8`.
pub open spec fn cidr_prefix(c: Seq<char>) -> Option<nat> {
    let k = crate::text::index_of_char(c, '/');
    if k < 0 {
        None
    } else {
        parse_unsigned(c.subrange(k + 1, c.len() as int), 10, 255)
    }
}

/// The 32-bit netmask with the top `prefix` bits set.
pub open spec fn prefix_mask(prefix: nat) -> u32 {
    if prefix == 0 {
        0
    } else {
        0xFFFF_FFFFu32 << ((32 - prefix) as u32)
    }
}

/// A 32-bit address in dotted decimal form, most significant byte first.
pub open spec fn dotted(m: u32) -> Seq<char> {
    decimal(((m >> 24u32) & 0xffu32) as nat) + "."@ + decimal(((m >> 16u32) & 0xffu32) as nat) + "."@
        + decimal(((m >> 8u32) & 0xffu32) as nat) + "."@ + decimal((m & 0xffu32) as nat)
}

/// The netmask of a prefix length, for lengths up to 32.
pub open spec fn netmask_of(prefix: nat) -> Option<Seq<char>> {
    if prefix > 32 {
        None
    } else {
        Some(dotted(prefix_mask(prefix)))
    }
}

/// The decimal text of a byte value is one part of a dotted address.
proof fn lemma_decimal_octet(n: nat)
    requires
        n <= 255,
    ensures
        is_octet(decimal(n)),
        forall|j: int| 0 <= j < decimal(n).len() ==> #[trigger] decimal(n)[j] != '.',
{
    lemma_decimal_digits(n);
}

/// A dot-free part, a dot and the rest split into that part and the
/// pieces of the rest.
proof fn lemma_split_dot_prefix(x: Seq<char>, rest: Seq<char>)
    requires
        forall|j: int| 0 <= j < x.len() ==> #[trigger] x[j] != '.',
    ensures
        split_on(x + "."@ + rest, '.') == seq![x] + split_on(rest, '.'),
{
    reveal_strlit(".");
    let t = x + "."@ + rest;
    assert(t[x.len() as int] == '.');
    assert forall|j: int| 0 <= j < x.len() implies t[j] != '.' by {
        assert(t[j] == x[j]);
    }
    assert(t.subrange(0, x.len() as int) =~= x);
    assert(t.subrange(x.len() + 1int, t.len() as int) =~= rest);
    lemma_split_on_unfold(t, '.', x.len() as int);
}

/// Four dot-free parts joined by dots split back into those parts.
proof fn lemma_split_four(a: Seq<char>, b: Seq<char>, c: Seq<char>, d: Seq<char>)
    requires
        forall|j: int| 0 <= j < a.len() ==> #[trigger] a[j] != '.',
        forall|j: int| 0 <= j < b.len() ==> #[trigger] b[j] != '.',
        forall|j: int| 0 <= j < c.len() ==> #[trigger] c[j] != '.',
        forall|j: int| 0 <= j < d.len() ==> #[trigger] d[j] != '.',
    ensures
        split_on(a + "."@ + b + "."@ + c + "."@ + d, '.') == seq![a, b, c, d],
{
    let s3 = c + "."@ + d;
    let s2 = b + "."@ + s3;
    let s1 = a + "."@ + s2;
    assert(a + "."@ + b + "."@ + c + "."@ + d =~= s1);
    lemma_split_on_last(d, '.');
    lemma_split_dot_prefix(c, d);
    lemma_split_dot_prefix(b, s3);
    lemma_split_dot_prefix(a, s2);
    assert(split_on(s1, '.') =~= seq![a, b, c, d]);
}

/// Every 32-bit value written in dotted form is an address that the
/// settings' validation accepts.
pub proof fn lemma_dotted_is_ipv4(m: u32)
    ensures
        is_ipv4(dotted(m)),
{
    let b0 = ((m >> 24u32) & 0xffu32) as nat;
    let b1 = ((m >> 16u32) & 0xffu32) as nat;
    let b2 = ((m >> 8u32) & 0xffu32) as nat;
    let b3 = (m & 0xffu32) as nat;
    assert((m >> 24u32) & 0xffu32 <= 255u32) by (bit_vector);
    assert((m >> 16u32) & 0xffu32 <= 255u32) by (bit_vector);
    assert((m >> 8u32) & 0xffu32 <= 255u32) by (bit_vector);
    assert(m & 0xffu32 <= 255u32) by (bit_vector);
    lemma_decimal_octet(b0);
    lemma_decimal_octet(b1);
    lemma_decimal_octet(b2);
    lemma_decimal_octet(b3);
    lemma_split_four(decimal(b0), decimal(b1), decimal(b2), decimal(b3));
    let parts = split_on(dotted(m), '.');
    assert(parts == seq![decimal(b0), decimal(b1), decimal(b2), decimal(b3)]);
    assert forall|i: int| 0 <= i < 4 implies is_octet(#[trigger] parts[i]) by {
        if i == 0 {
            assert(parts[0] == decimal(b0));
        } else if i == 1 {
            assert(parts[1] == decimal(b1));
        } else if i == 2 {
            assert(parts[2] == decimal(b2));
        } else {
            assert(parts[3] == decimal(b3));
        }
    }
}

fn push_dotted(out: &mut Vec<char>, m: u32)
    ensures
        final(out)@ == old(out)@ + dotted(m),
{
    proof {
        reveal_strlit(".");
    }
    push_decimal(out, ((m >> 24u32) & 0xffu32) as u64);
    out.push('.');
    push_decimal(out, ((m >> 16u32) & 0xffu32) as u64);
    out.push('.');
    push_decimal(out, ((m >> 8u32) & 0xffu32) as u64);
    out.push('.');
    push_decimal(out, (m & 0xffu32) as u64);
    assert("."@ =~= seq!['.']);
    assert(out@ =~= old(out)@ + dotted(m));
}

/// The netmask of a prefix length in dotted form; none above 32.
pub fn prefix_to_netmask(prefix: u8) -> (r: Option<String>)
    ensures
        text_of(r) == netmask_of(prefix as nat),
{
    if prefix > 32 {
        return None;
    }
    let mask: u32 = if prefix == 0 {
        0
    } else {
        0xFFFF_FFFFu32 << (32 - prefix as u32)
    };
    let mut out: Vec<char> = Vec::new();
    push_dotted(&mut out, mask);
    Some(string_of(&out))
}

/// The address after the first `inet` word of a line, if the line has one.
pub open spec fn line_cidr(line: Seq<char>) -> Option<Seq<char>> {
    crate::text::word_after(words(line), "inet"@)
}

/// The `inet` addresses of the lines, in order.
pub open spec fn cidrs_of(ls: Seq<Seq<char>>) -> Seq<Seq<char>>
    decreases ls.len(),
{
    if ls.len() == 0 {
        seq![]
    } else {
        let prev = cidrs_of(ls.drop_last());
        match line_cidr(ls.last()) {
            Some(c) => prev.push(c),
            None => prev,
        }
    }
}

/// The IPv4 addresses of an interface, and the address and netmask of the first.
pub struct Ipv4Info {
    pub addresses: Vec<String>,
    pub primary: Option<String>,
    pub netmask: Option<String>,
}

pub struct Ipv4InfoView {
    pub addresses: Seq<Seq<char>>,
    pub primary: Option<Seq<char>>,
    pub netmask: Option<Seq<char>>,
}

impl View for Ipv4Info {
    type V = Ipv4InfoView;

    open spec fn view(&self) -> Ipv4InfoView {
        Ipv4InfoView {
            addresses: self.addresses@.map_values(|s: String| s@),
            primary: text_of(self.primary),
            netmask: text_of(self.netmask),
        }
    }
}

/// What the output of `ip -4 -o addr show dev <iface>` says: every address
/// that follows an `inet` word, and the address and netmask of the first.
pub open spec fn ipv4_info_of(output: Seq<char>) -> Ipv4InfoView {
    let cs = cidrs_of(lines(output));
    Ipv4InfoView {
        addresses: cs,
        primary: if cs.len() > 0 {
            Some(cidr_address(cs[0]))
        } else {
            None
        },
        netmask: if cs.len() > 0 {
            match cidr_prefix(cs[0]) {
                Some(p) => netmask_of(p),
                None => None,
            }
        } else {
            None
        },
    }
}

/// The netmask that the status reports for the primary address is itself
/// an address, one that the validation of static settings accepts.
pub proof fn law_reported_netmask_is_an_address(output: Seq<char>)
    ensures
        ipv4_info_of(output).netmask matches Some(t) ==> is_ipv4(t),
{
    let cs = cidrs_of(lines(output));
    if cs.len() > 0 {
        if let Some(p) = cidr_prefix(cs[0]) {
            if p <= 32 {
                lemma_dotted_is_ipv4(prefix_mask(p));
            }
        }
    }
}

fn first_address_info(c: &Vec<char>) -> (r: (String, Option<String>))
    ensures
        r.0@ == cidr_address(c@),
        text_of(r.1) == (match cidr_prefix(c@) {
            Some(p) => netmask_of(p),
            None => None,
        }),
{
    let k = crate::text::find_char_from(c, '/', 0);
    assert(c@.subrange(0, c.len() as int) =~= c@);
    if k == c.len() {
        (string_of(c), None)
    } else {
        let address = string_of(&slice_of(c, 0, k));
        let prefix = parse_u8(&slice_of(c, k + 1, c.len()));
        let netmask = match prefix {
            Some(p) => prefix_to_netmask(p),
            None => None,
        };
        (address, netmask)
    }
}

/// The IPv4 addresses that `ip -4 -o addr show dev <iface>` printed.
pub fn parse_ipv4_info(output: &str) -> (info: Ipv4Info)
    ensures
        info@ == ipv4_info_of(output@),
{
    let ls = lines_of(output);
    let ghost lv = lines(output@);
    let inet = chars_of("inet");
    let mut found: Vec<Vec<char>> = Vec::new();
    let mut i: usize = 0;
    while i < ls.len()
        invariant
            i <= ls.len(),
            ls.deep_view() == lv,
            inet@ == "inet"@,
            found.deep_view() == cidrs_of(lv.subrange(0, i as int)),
        decreases ls.len() - i,
    {
        assert(ls@[i as int].deep_view() =~= ls@[i as int]@);
        assert(lv.subrange(0, i + 1).drop_last() =~= lv.subrange(0, i as int));
        let w = split_words(&ls[i]);
        match crate::text::word_after_in(&w, &inet) {
            Some(c) => {
                let ghost before = found.deep_view();
                found.push(c);
                assert(c.deep_view() =~= c@);
                assert(found.deep_view() =~= before.push(c@));
            },
            None => {},
        }
        i += 1;
    }
    assert(lv.subrange(0, ls.len() as int) =~= lv);
    let addresses = strings_from(&found, 0);
    assert(found.deep_view().subrange(0, found.len() as int) =~= found.deep_view());
    proof {
        crate::text::lemma_deep_chars(found);
    }
    if found.len() > 0 {
        let (address, netmask) = first_address_info(&found[0]);
        Ipv4Info { addresses, primary: Some(address), netmask }
    } else {
        Ipv4Info { addresses, primary: None, netmask: None }
    }
}

/// The gateway that the output of `ip -4 route show default dev <iface>`
/// names: the word after its first `via`.
pub open spec fn default_gateway_of(output: Seq<char>) -> Option<Seq<char>> {
    crate::text::word_after(words(output), "via"@)
}

pub fn parse_default_gateway(output: &str) -> (g: Option<String>)
    ensures
        text_of(g) == default_gateway_of(output@),
{
    let w = split_words(&chars_of(output));
    match crate::text::word_after_in(&w, &chars_of("via")) {
        Some(v) => Some(string_of(&v)),
        None => None,
    }
}

/// The server that a line of `resolv.conf` names: its trimmed text, unless
/// a comment, starts with the word `nameserver` followed by the server.
pub open spec fn nameserver_of(line: Seq<char>) -> Option<Seq<char>> {
    let t = trim(line);
    let w = words(t);
    if t.len() > 0 && t[0] == '#' {
        None
    } else if w.len() >= 2 && w[0] == "nameserver"@ {
        Some(w[1])
    } else {
        None
    }
}

pub open spec fn nameservers_of(ls: Seq<Seq<char>>) -> Seq<Seq<char>>
    decreases ls.len(),
{
    if ls.len() == 0 {
        seq![]
    } else {
        let prev = nameservers_of(ls.drop_last());
        match nameserver_of(ls.last()) {
            Some(c) => prev.push(c),
            None => prev,
        }
    }
}

/// The DNS servers that `/etc/resolv.conf` lists, in order.
pub fn parse_dns_nameservers(raw: &str) -> (out: Vec<String>)
    ensures
        out@.map_values(|s: String| s@) == nameservers_of(lines(raw@)),
{
    let ls = lines_of(raw);
    let ghost lv = lines(raw@);
    let key = chars_of("nameserver");
    let mut found: Vec<Vec<char>> = Vec::new();
    let mut i: usize = 0;
    while i < ls.len()
        invariant
            i <= ls.len(),
            ls.deep_view() == lv,
            key@ == "nameserver"@,
            found.deep_view() == nameservers_of(lv.subrange(0, i as int)),
        decreases ls.len() - i,
    {
        assert(ls@[i as int].deep_view() =~= ls@[i as int]@);
        assert(lv.subrange(0, i + 1).drop_last() =~= lv.subrange(0, i as int));
        let t = trim_chars(&ls[i]);
        let w = split_words(&t);
        proof {
            crate::text::lemma_deep_chars(w);
        }
        if t.len() > 0 && t[0] == '#' {
        } else if w.len() >= 2 && eq_chars(&w[0], &key) {
            let ghost before = found.deep_view();
            let c = w[1].clone();
            found.push(c);
            assert(c.deep_view() =~= c@);
            assert(found.deep_view() =~= before.push(c@));
        }
        i += 1;
    }
    assert(lv.subrange(0, ls.len() as int) =~= lv);
    let out = strings_from(&found, 0);
    assert(found.deep_view().subrange(0, found.len() as int) =~= found.deep_view());
    out
}

} // verus!

verus! {

/// Reading lines never changes the mode.
pub proof fn lemma_lines_keep_mode(init: EthernetSettingsView, ls: Seq<Seq<char>>)
    ensures
        settings_after_lines(init, ls).mode == init.mode,
    decreases ls.len(),
{
    if ls.len() > 0 {
        lemma_lines_keep_mode(init, ls.drop_last());
    }
}

/// A file's contents trimmed, or none where it could not be read.
pub open spec fn trimmed_text(raw: Option<Seq<char>>) -> Option<Seq<char>> {
    match raw {
        Some(t) => Some(trim(t)),
        None => None,
    }
}

/// The text of something that may be missing: empty where it is.
pub open spec fn text_or_empty(raw: Option<Seq<char>>) -> Seq<char> {
    match raw {
        Some(t) => t,
        None => seq![],
    }
}

fn str_or_empty(o: Option<&str>) -> (r: &str)
    ensures
        r@ == text_or_empty(match o {
            Some(v) => Some(v@),
            None => None,
        }),
{
    match o {
        Some(v) => v,
        None => {
            proof {
                reveal_strlit("");
            }
            ""
        },
    }
}

/// The interface's status from what was read of it. `exists` says whether
/// `/sys/class/net/<iface>` is there; `files` holds its files; `addr_output`
/// and `route_output` the output of `ip -4 -o addr show` and
/// `ip -4 route show default` for it, `None` where the command failed;
/// `resolv_conf` the contents of `/etc/resolv.conf`; `config_raw` those of
/// the configuration file (`None` reads as empty). A missing interface
/// shows as `missing`, with no addresses and zero counters.
pub fn ethernet_status(
    iface: &str,
    exists: bool,
    files: &InterfaceReadings,
    addr_output: Option<&str>,
    route_output: Option<&str>,
    resolv_conf: Option<&str>,
    config_raw: Option<&str>,
) -> (st: EthernetStatus)
    ensures
        st.iface@ == iface@,
        st.exists == exists,
        text_of(st.config_mode) == Some(
            mode_name(
                declared_mode(
                    text_or_empty(
                        match config_raw {
                            Some(v) => Some(v@),
                            None => None,
                        },
                    ),
                ),
            ),
        ),
        st.dns_nameservers@.map_values(|s: String| s@) == (match resolv_conf {
            Some(r) => nameservers_of(lines(r@)),
            None => Seq::<Seq<char>>::empty(),
        }),
        !exists ==> {
            &&& st.operstate@ == "missing"@
            &&& st.carrier is None
            &&& !st.up
            &&& st.mac_address is None
            &&& st.ipv4_addresses@.len() == 0
            &&& st.primary_ipv4 is None
            &&& st.netmask is None
            &&& st.gateway is None
            &&& st.rx_packets == 0 && st.tx_packets == 0 && st.rx_bytes == 0
            &&& st.tx_bytes == 0 && st.rx_errors == 0 && st.tx_errors == 0
        },
        exists ==> {
            let info = match addr_output {
                Some(o) => ipv4_info_of(o@),
                None => Ipv4InfoView { addresses: seq![], primary: None, netmask: None },
            };
            &&& st.operstate@ == operstate_of(text_of(files.operstate))
            &&& st.carrier == carrier_of(text_of(files.carrier))
            &&& st.up == iface_is_up(operstate_of(text_of(files.operstate)), text_of(files.flags))
            &&& text_of(st.mac_address) == trimmed_text(text_of(files.address))
            &&& st.ipv4_addresses@.map_values(|s: String| s@) == info.addresses
            &&& text_of(st.primary_ipv4) == info.primary
            &&& text_of(st.netmask) == info.netmask
            &&& text_of(st.gateway) == (match route_output {
                Some(o) => default_gateway_of(o@),
                None => None,
            })
            &&& st.rx_packets == counter_or_zero(text_of(files.rx_packets))
            &&& st.tx_packets == counter_or_zero(text_of(files.tx_packets))
            &&& st.rx_bytes == counter_or_zero(text_of(files.rx_bytes))
            &&& st.tx_bytes == counter_or_zero(text_of(files.tx_bytes))
            &&& st.rx_errors == counter_or_zero(text_of(files.rx_errors))
            &&& st.tx_errors == counter_or_zero(text_of(files.tx_errors))
        },
{
    let settings = parse_ethernet_settings(str_or_empty(config_raw));
    let config_mode = Some(mode_text(settings.mode));
    proof {
        let raw = text_or_empty(
            match config_raw {
                Some(v) => Some(v@),
                None => None,
            },
        );
        lemma_lines_keep_mode(
            EthernetSettingsView {
                mode: declared_mode(raw),
                address: None,
                netmask: None,
                gateway: None,
                dns_nameservers: seq![],
            },
            lines(raw),
        );
    }
    let dns_nameservers = match resolv_conf {
        Some(r) => parse_dns_nameservers(r),
        None => Vec::new(),
    };
    proof {
        assert(dns_nameservers@.len() == 0 ==> dns_nameservers@.map_values(|s: String| s@)
            =~= Seq::<Seq<char>>::empty());
    }
    if !exists {
        return EthernetStatus {
            iface: String::from_str(iface),
            exists: false,
            operstate: String::from_str("missing"),
            carrier: None,
            up: false,
            mac_address: None,
            ipv4_addresses: Vec::new(),
            primary_ipv4: None,
            netmask: None,
            gateway: None,
            dns_nameservers,
            rx_packets: 0,
            tx_packets: 0,
            rx_bytes: 0,
            tx_bytes: 0,
            rx_errors: 0,
            tx_errors: 0,
            config_mode,
        };
    }
    let operstate = operstate_text(&files.operstate);
    let carrier = parse_carrier(&files.carrier);
    let up = interface_up(operstate.as_str(), &files.flags);
    let mac_address = match &files.address {
        Some(a) => Some(string_of(&trim_str(a.as_str()))),
        None => None,
    };
    let info = match addr_output {
        Some(o) => parse_ipv4_info(o),
        None => Ipv4Info { addresses: Vec::new(), primary: None, netmask: None },
    };
    proof {
        assert(info.addresses@.len() == 0 ==> info.addresses@.map_values(|s: String| s@)
            =~= Seq::<Seq<char>>::empty());
    }
    let gateway = match route_output {
        Some(o) => parse_default_gateway(o),
        None => None,
    };
    EthernetStatus {
        iface: String::from_str(iface),
        exists: true,
        operstate,
        carrier,
        up,
        mac_address,
        ipv4_addresses: info.addresses,
        primary_ipv4: info.primary,
        netmask: info.netmask,
        gateway,
        dns_nameservers,
        rx_packets: read_counter(&files.rx_packets),
        tx_packets: read_counter(&files.tx_packets),
        rx_bytes: read_counter(&files.rx_bytes),
        tx_bytes: read_counter(&files.tx_bytes),
        rx_errors: read_counter(&files.rx_errors),
        tx_errors: read_counter(&files.tx_errors),
        config_mode,
    }
}

/// A counter's value, 0 when it cannot be read.
pub open spec fn counter_or_zero(raw: Option<Seq<char>>) -> u64 {
    match counter_value(raw) {
        Some(x) => x,
        None => 0,
    }
}

} // verus!

verus! {

/// The file that applying `settings` writes for `iface`: the rendered
/// configuration when the settings pass validation, else the validation
/// failure (and nothing is written).
pub fn config_to_write(iface: &str, settings: &EthernetSettings) -> (r: Result<String, EthernetError>)
    ensures
        match r {
            Ok(body) => validation_outcome(settings@) is Ok && body@ == rendered_config(
                iface@,
                settings@,
            ),
            Err(e) => validation_outcome(settings@) == Err::<(), Seq<char>>(e.0@),
        },
{
    match validate_settings(settings) {
        Ok(()) => Ok(render_config(iface, settings)),
        Err(e) => Err(e),
    }
}

} // verus!

verus! {

/// What an occurrence of ` inet static` shows at its place.
proof fn lemma_static_marker_chars(s: Seq<char>, i: int)
    requires
        crate::text::occurs_at(s, " inet static"@, i),
    ensures
        0 <= i,
        i + 12 <= s.len(),
        s[i] == ' ',
        s[i + 5] == ' ',
        s[i + 6] == 's',
        s[i + 8] == 'a',
        s[i + 11] == 'c',
{
    reveal_strlit(" inet static");
    let p = " inet static"@;
    assert(s.subrange(i, i + 12) == p);
    assert(s[i] == s.subrange(i, i + 12)[0]);
    assert(s[i + 5] == s.subrange(i, i + 12)[5]);
    assert(s[i + 6] == s.subrange(i, i + 12)[6]);
    assert(s[i + 8] == s.subrange(i, i + 12)[8]);
    assert(s[i + 11] == s.subrange(i, i + 12)[11]);
}

/// A text without the character `c` holds no ` inet static` when that
/// marker holds `c` (`a` or `c`).
proof fn lemma_no_marker_without(s: Seq<char>, c: char)
    requires
        c == 'a' || c == 'c',
        forall|j: int| 0 <= j < s.len() ==> s[j] != c,
    ensures
        !contains_seq(s, " inet static"@),
{
    assert forall|i: int| !crate::text::occurs_at(s, " inet static"@, i) by {
        if crate::text::occurs_at(s, " inet static"@, i) {
            lemma_static_marker_chars(s, i);
        }
    }
}

/// A marker in a line that ends with a name without whitespace would need
/// a space in the name, or two spaces five apart before it.
proof fn lemma_no_marker_before_name(x: Seq<char>, name: Seq<char>)
    requires
        !has_ws(name),
        forall|i: int| 0 <= i < x.len() && #[trigger] x[i] == ' ' ==> i + 5 >= x.len() || x[i + 5] != ' ',
    ensures
        !contains_seq(x + name, " inet static"@),
{
    let s = x + name;
    assert(is_ws(' '));
    assert forall|i: int| !crate::text::occurs_at(s, " inet static"@, i) by {
        if crate::text::occurs_at(s, " inet static"@, i) {
            lemma_static_marker_chars(s, i);
            if i >= x.len() {
                assert(s[i] == name[i - x.len()]);
                assert(has_ws(name));
            } else if i + 5 >= x.len() {
                assert(s[i + 5] == name[i + 5 - x.len()]);
                assert(has_ws(name));
            } else {
                assert(s[i] == x[i]);
                assert(s[i + 5] == x[i + 5]);
            }
        }
    }
}

/// The lines of a DHCP configuration hold no ` inet static` when the
/// interface name has no whitespace.
proof fn lemma_dhcp_lines_unmarked(iface: Seq<char>, i: int)
    requires
        !has_ws(iface),
        0 <= i < 6,
    ensures
        !contains_seq(
            (header_lines(iface, "dhcp"@) + seq!["    wait-delay 15"@, "    hostname $(hostname)"@])[i],
            " inet static"@,
        ),
{
    reveal_strlit("auto ");
    reveal_strlit("iface ");
    reveal_strlit(" inet ");
    reveal_strlit("dhcp");
    reveal_strlit("    pre-up /etc/network/nfs_check");
    reveal_strlit("    pre-up /usr/sbin/eth-mac-prepare ");
    reveal_strlit("    wait-delay 15");
    reveal_strlit("    hostname $(hostname)");
    let ls = header_lines(iface, "dhcp"@) + seq!["    wait-delay 15"@, "    hostname $(hostname)"@];
    if i == 0 {
        lemma_no_marker_before_name("auto "@, iface);
        assert(ls[0] == "auto "@ + iface);
    } else if i == 1 {
        lemma_dhcp_iface_line(iface);
        assert(ls[1] == "iface "@ + iface + " inet "@ + "dhcp"@);
    } else if i == 2 {
        let l = "    pre-up /etc/network/nfs_check"@;
        assert(forall|j: int| 0 <= j < l.len() ==> l[j] != 'a');
        lemma_no_marker_without(l, 'a');
    } else if i == 3 {
        let x = "    pre-up /usr/sbin/eth-mac-prepare "@;
        assert(forall|k: int| 0 <= k < x.len() && #[trigger] x[k] == ' ' ==> k + 5 >= x.len() || x[k + 5] != ' ');
        lemma_no_marker_before_name(x, iface);
        assert(ls[3] == x + iface);
    } else if i == 4 {
        let l = "    wait-delay 15"@;
        assert(forall|j: int| 0 <= j < l.len() ==> l[j] != 'c');
        lemma_no_marker_without(l, 'c');
        assert(ls[4] == l);
    } else {
        let l = "    hostname $(hostname)"@;
        assert(forall|j: int| 0 <= j < l.len() ==> l[j] != 'c');
        lemma_no_marker_without(l, 'c');
        assert(ls[5] == l);
    }
}

/// The second line of a DHCP configuration holds no ` inet static`.
proof fn lemma_dhcp_iface_line(iface: Seq<char>)
    requires
        !has_ws(iface),
    ensures
        !contains_seq("iface "@ + iface + " inet "@ + "dhcp"@, " inet static"@),
{
    reveal_strlit("iface ");
    reveal_strlit(" inet ");
    reveal_strlit("dhcp");
    let n = iface.len() as int;
    let s = "iface "@ + iface + " inet "@ + "dhcp"@;
    assert(is_ws(' '));
    assert(s.len() == 16 + n);
    assert forall|i: int| !crate::text::occurs_at(s, " inet static"@, i) by {
        if crate::text::occurs_at(s, " inet static"@, i) {
            lemma_static_marker_chars(s, i);
            if i < 5 {
                assert(s[i] == "iface "@[i]);
            } else if i == 5 {
                if n == 4 {
                    assert(s[11] == " inet "@[1]);
                } else if n < 4 {
                    assert(s[10] == (" inet "@ + "dhcp"@)[10 - 6 - n]);
                } else {
                    assert(s[10] == iface[4]);
                    assert(has_ws(iface));
                }
            } else if i < 6 + n {
                assert(s[i] == iface[i - 6]);
                assert(has_ws(iface));
            } else if i == 6 + n {
                assert(s[i + 6] == "dhcp"@[0]);
            } else {
                assert(s[i] == (" inet "@ + "dhcp"@)[i - 6 - n]);
            }
        }
    }
}

} // verus!

verus! {

/// Text that holds no line break and occurs in lines written with `unlines`
/// occurs in one of the lines.
proof fn lemma_occurrence_in_a_line(ls: Seq<Seq<char>>, p: Seq<char>, k: int)
    requires
        p.len() > 0,
        no_newline(p),
        crate::text::occurs_at(unlines(ls), p, k),
    ensures
        exists|i: int| 0 <= i < ls.len() && contains_seq(#[trigger] ls[i], p),
    decreases ls.len(),
{
    if ls.len() == 0 {
        assert(unlines(ls).len() == 0);
    } else {
        let a = unlines(ls.drop_last());
        let b = ls.last().push('\n');
        let s = unlines(ls);
        assert(s == a + b);
        if k + p.len() <= a.len() {
            assert(s.subrange(k, k + p.len()) =~= a.subrange(k, k + p.len()));
            lemma_occurrence_in_a_line(ls.drop_last(), p, k);
            let i = choose|i: int| 0 <= i < ls.drop_last().len() && contains_seq(#[trigger] ls.drop_last()[i], p);
            assert(ls[i] == ls.drop_last()[i]);
        } else if k >= a.len() {
            let l = ls.last();
            let j = k - a.len();
            if j + p.len() > l.len() {
                assert(s[k + p.len() - 1] == b[l.len() as int]);
                assert(p[p.len() - 1] == s.subrange(k, k + p.len())[p.len() - 1]);
                assert(p[p.len() - 1] != '\n');
            }
            assert(l.subrange(j, j + p.len()) =~= s.subrange(k, k + p.len()));
            assert(crate::text::occurs_at(l, p, j));
            assert(contains_seq(ls[ls.len() - 1], p));
        } else {
            let dl = ls.drop_last();
            assert(dl.len() > 0) by {
                if dl.len() == 0 {
                    assert(a.len() == 0);
                }
            }
            assert(a == unlines(dl.drop_last()) + dl.last().push('\n'));
            assert(a[a.len() - 1] == '\n');
            let m = a.len() - 1 - k;
            assert(p[m] == s.subrange(k, k + p.len())[m]);
            assert(s[a.len() - 1] == a[a.len() - 1]);
        }
    }
}

/// Reading back a DHCP configuration: for an interface name without
/// whitespace (as interface names are), the file written for DHCP settings
/// reads back as DHCP with no addresses.
pub proof fn law_dhcp_config_round_trip(iface: Seq<char>, s: EthernetSettingsView)
    requires
        !has_ws(iface),
        s.mode == EthernetMode::Dhcp,
    ensures
        parsed_settings(rendered_config(iface, s)) == stored_settings(s),
{
    reveal_strlit(" inet static");
    let p = " inet static"@;
    let ls = config_lines(iface, s);
    assert(is_ws('\n'));
    assert(no_newline(iface)) by {
        assert forall|j: int| 0 <= j < iface.len() implies #[trigger] iface[j] != '\n' by {
            if iface[j] == '\n' {
                assert(has_ws(iface));
            }
        }
    }
    assert(no_newline(p));
    if contains_seq(rendered_config(iface, s), p) {
        let k = choose|k: int| crate::text::occurs_at(rendered_config(iface, s), p, k);
        lemma_occurrence_in_a_line(ls, p, k);
        let i = choose|i: int| 0 <= i < ls.len() && contains_seq(#[trigger] ls[i], p);
        lemma_dhcp_lines_unmarked(iface, i);
    }
    law_config_round_trip(iface, s);
}

} // verus!
