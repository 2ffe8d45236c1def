//! WiFi control through `wpa_cli`: reading its replies and deciding the
//! commands that scanning and connecting send.
use vstd::prelude::*;
use crate::numeric::{digit_value, parse_unsigned, parse_unsigned_chars};
use crate::numeric::{decimal, decimal_of, parse_i32, parse_i32_chars, parse_u32};
use crate::text::{
    find_char_from, index_of_char, split_words, starts_with, starts_with_chars, words,
    contains_chars, contains_seq, join, join_from, split_chars, split_on, chars_of, eq_chars, lines, lines_of, lossy_string, push_all, push_str, push_utf8, slice_of,
    string_of, trim, trim_chars, trim_str, utf8_lossy,
};

verus! {

/// Where `wpa_supplicant`'s control sockets live and which interface it drives.
#[derive(Clone)]
pub struct WifiConfig {
    ctrl_dir: String,
    iface: String,
}

pub open spec fn default_ctrl_dir() -> Seq<char> {
    "/var/run/wpa_supplicant"@
}

pub open spec fn default_wifi_iface() -> Seq<char> {
    "wlan0"@
}

impl WifiConfig {
    pub closed spec fn ctrl_dir_view(&self) -> Seq<char> {
        self.ctrl_dir@
    }

    pub closed spec fn iface_view(&self) -> Seq<char> {
        self.iface@
    }

    /// The configuration from the values of `WPA_CTRL_DIR` and `WIFI_IFACE`,
    /// each replaced by its default when unset.
    pub fn from_env_values(ctrl_dir: Option<String>, iface: Option<String>) -> (c: WifiConfig)
        ensures
            c.ctrl_dir_view() == (match ctrl_dir {
                Some(v) => v@,
                None => default_ctrl_dir(),
            }),
            c.iface_view() == (match iface {
                Some(v) => v@,
                None => default_wifi_iface(),
            }),
    {
        WifiConfig {
            ctrl_dir: match ctrl_dir {
                Some(v) => v,
                None => String::from_str("/var/run/wpa_supplicant"),
            },
            iface: match iface {
                Some(v) => v,
                None => String::from_str("wlan0"),
            },
        }
    }

    pub fn iface(&self) -> (r: &str)
        ensures
            r@ == self.iface_view(),
    {
        self.iface.as_str()
    }

    pub fn ctrl_dir(&self) -> (r: &str)
        ensures
            r@ == self.ctrl_dir_view(),
    {
        self.ctrl_dir.as_str()
    }
}

/// A failed WiFi operation, with its message.
#[derive(Debug)]
pub struct WifiError(pub String);

/// One network seen by a scan.
#[derive(Debug, Clone)]
pub struct Network {
    pub ssid: String,
    pub bssid: String,
    pub signal: i32,
    pub security: String,
    pub frequency: u32,
}

pub struct NetworkView {
    pub ssid: Seq<char>,
    pub bssid: Seq<char>,
    pub signal: i32,
    pub security: Seq<char>,
    pub frequency: u32,
}

impl View for Network {
    type V = NetworkView;

    open spec fn view(&self) -> NetworkView {
        NetworkView {
            ssid: self.ssid@,
            bssid: self.bssid@,
            signal: self.signal,
            security: self.security@,
            frequency: self.frequency,
        }
    }
}

/// The connection state of the interface.
#[derive(Debug, Clone)]
pub struct Status {
    pub state: String,
    pub ssid: Option<String>,
    pub bssid: Option<String>,
    pub ip: Option<String>,
}

/// Drives one wireless interface.
pub struct WifiService {
    config: WifiConfig,
}

impl WifiService {
    pub closed spec fn config_view(&self) -> WifiConfig {
        self.config
    }

    pub fn new(config: WifiConfig) -> (s: WifiService)
        ensures
            s.config_view() == config,
    {
        WifiService { config }
    }

    pub fn config(&self) -> (c: &WifiConfig)
        ensures
            *c == self.config_view(),
    {
        &self.config
    }

    /// The line that describes the configuration.
    pub fn config_summary(&self) -> (s: String)
        ensures
            s@ == "WiFi 配置: ctrl_dir="@ + self.config_view().ctrl_dir_view() + ", iface="@
                + self.config_view().iface_view(),
    {
        let mut v = chars_of("WiFi 配置: ctrl_dir=");
        push_str(&mut v, self.config.ctrl_dir());
        push_str(&mut v, ", iface=");
        push_str(&mut v, self.config.iface());
        string_of(&v)
    }

    /// Prints the configuration summary.
    pub fn print_config(&self) {
        let s = self.config_summary();
        crate::text::print_line(s.as_str());
    }
}

/// The reply of `wpa_cli`: its standard output when it succeeded, else a
/// failure showing its standard error.
pub fn wpa_command_result(success: bool, stdout: &str, stderr: &str) -> (r: Result<String, WifiError>)
    ensures
        match r {
            Ok(o) => success && o@ == stdout@,
            Err(e) => !success && e.0@ == "wpa_cli 命令失败: "@ + stderr@,
        },
{
    if success {
        Ok(String::from_str(stdout))
    } else {
        let mut v = chars_of("wpa_cli 命令失败: ");
        push_str(&mut v, stderr);
        Err(WifiError(string_of(&v)))
    }
}

/// The detail that a failure message shows for a trimmed reply.
pub open spec fn reply_detail(trimmed: Seq<char>) -> Seq<char> {
    if trimmed.len() == 0 {
        "空响应"@
    } else {
        trimmed
    }
}

/// The message of a command whose reply was not `OK`.
pub open spec fn wpa_failure_message(action: Seq<char>, output: Seq<char>) -> Seq<char> {
    action + " 失败: "@ + reply_detail(trim(output))
}

/// `Ok` exactly when the reply, trimmed, is `OK`; otherwise the failure
/// names the action and shows the reply.
pub fn ensure_wpa_ok(output: &str, action: &str) -> (r: Result<(), WifiError>)
    ensures
        r is Ok <==> trim(output@) == "OK"@,
        r matches Err(e) ==> e.0@ == wpa_failure_message(action@, output@),
{
    let trimmed = trim_str(output);
    let ok = chars_of("OK");
    if eq_chars(&trimmed, &ok) {
        return Ok(());
    }
    let mut msg = chars_of(action);
    push_str(&mut msg, " 失败: ");
    if trimmed.len() == 0 {
        push_str(&mut msg, "空响应");
    } else {
        push_all(&mut msg, &trimmed);
    }
    Err(WifiError(string_of(&msg)))
}

/// Whether any line after the header holds something other than whitespace.
pub open spec fn scan_has_data(results: Seq<char>) -> bool {
    exists|i: int| 1 <= i < lines(results).len() && #[trigger] trim(lines(results)[i]).len() > 0
}

pub fn has_scan_data(results: &str) -> (b: bool)
    ensures
        b == scan_has_data(results@),
{
    let ls = lines_of(results);
    let mut i: usize = 1;
    while i < ls.len()
        invariant
            1 <= i,
            ls.deep_view() == lines(results@),
            forall|j: int| 1 <= j < i && j < ls.len() ==> #[trigger] trim(lines(results@)[j]).len() == 0,
        decreases ls.len() - i,
    {
        assert(ls@[i as int].deep_view() =~= ls@[i as int]@);
        let t = trim_chars(&ls[i]);
        if t.len() > 0 {
            assert(ls.deep_view()[i as int] == ls@[i as int]@);
            assert(trim(lines(results@)[i as int]).len() > 0);
            return true;
        }
        i += 1;
    }
    false
}

/// The bytes that an SSID as `wpa_cli` prints it stands for: `\x` followed by
/// up to two characters is the byte they spell in hex (nothing when they do
/// not), every other character is its UTF-8 encoding.
pub open spec fn ssid_bytes(s: Seq<char>) -> Seq<u8>
    decreases s.len(),
{
    if s.len() == 0 {
        seq![]
    } else if s[0] == '\\' && s.len() > 1 && s[1] == 'x' {
        let end = if s.len() < 4 {
            s.len() as int
        } else {
            4
        };
        let rest = ssid_bytes(s.subrange(end, s.len() as int));
        match parse_unsigned(s.subrange(2, end), 16, 255) {
            Some(b) => seq![b as u8] + rest,
            None => rest,
        }
    } else {
        vstd::utf8::encode_scalar(s[0] as u32) + ssid_bytes(s.drop_first())
    }
}

pub open spec fn decoded_ssid(s: Seq<char>) -> Seq<char> {
    utf8_lossy(ssid_bytes(s))
}

/// A backslash directly followed by `x` at position `i` of `s`.
pub open spec fn escape_at(s: Seq<char>, i: int) -> bool {
    0 <= i && i + 1 < s.len() && s[i] == '\\' && s[i + 1] == 'x'
}

/// Whether `s` holds a `\x` anywhere.
pub open spec fn has_hex_escape(s: Seq<char>) -> bool {
    exists|i: int| #[trigger] escape_at(s, i)
}

/// The hexadecimal digit for `d` (below 16), in lower or upper case.
pub open spec fn hex_digit(d: nat, upper: bool) -> char {
    if d < 10 {
        ((d + 48) as u32) as char
    } else if upper {
        ((d + 55) as u32) as char
    } else {
        ((d + 87) as u32) as char
    }
}

/// Bytes written as `wpa_cli` escapes them: `\x` and two hex digits each.
pub open spec fn hex_escaped(bytes: Seq<u8>, upper: bool) -> Seq<char>
    decreases bytes.len(),
{
    if bytes.len() == 0 {
        seq![]
    } else {
        let b = bytes[0] as nat;
        seq!['\\', 'x', hex_digit(b / 16, upper), hex_digit(b % 16, upper)] + hex_escaped(
            bytes.drop_first(),
            upper,
        )
    }
}

/// Decodes the `\xHH` escapes with which `wpa_cli` prints an SSID.
pub fn decode_wpa_ssid(source: &str) -> (out: String)
    ensures
        out@ == decoded_ssid(source@),
        vstd::utf8::valid_utf8(ssid_bytes(source@)) ==> out@ == vstd::utf8::decode_utf8(ssid_bytes(source@)),
        !has_hex_escape(source@) ==> out@ == source@,
        forall|t: Seq<char>, upper: bool|
            source@ == #[trigger] hex_escaped(vstd::utf8::encode_utf8(t), upper) ==> out@ == t,
{
    let v = chars_of(source);
    let bytes = ssid_bytes_of(&v);
    proof {
        if !has_hex_escape(source@) {
            lemma_plain_ssid_bytes(source@);
            vstd::utf8::encode_utf8_valid_utf8(source@);
            vstd::utf8::encode_utf8_decode_utf8(source@);
        }
        assert forall|t: Seq<char>, upper: bool|
            source@ == #[trigger] hex_escaped(vstd::utf8::encode_utf8(t), upper) implies ssid_bytes(source@)
            == vstd::utf8::encode_utf8(t) && vstd::utf8::valid_utf8(ssid_bytes(source@))
            && vstd::utf8::decode_utf8(ssid_bytes(source@)) == t by {
            law_escaped_ssid_round_trip(t, upper);
        }
    }
    lossy_string(&bytes)
}

/// Without a `\x`, an SSID's bytes are its UTF-8 encoding.
proof fn lemma_plain_ssid_bytes(s: Seq<char>)
    requires
        !has_hex_escape(s),
    ensures
        ssid_bytes(s) == vstd::utf8::encode_utf8(s),
    decreases s.len(),
{
    if s.len() > 0 {
        assert(!escape_at(s, 0));
        assert(!has_hex_escape(s.drop_first())) by {
            if has_hex_escape(s.drop_first()) {
                let j = choose|j: int| #[trigger] escape_at(s.drop_first(), j);
                assert(escape_at(s, j + 1));
            }
        }
        lemma_plain_ssid_bytes(s.drop_first());
    }
}

/// A hex digit reads back as its value.
proof fn lemma_hex_digit(d: nat, upper: bool)
    requires
        d < 16,
    ensures
        digit_value(hex_digit(d, upper), 16) == d,
{
    let c = hex_digit(d, upper);
    if d < 10 {
        assert(c as u32 == d + 48);
    } else if upper {
        assert(c as u32 == d + 55);
    } else {
        assert(c as u32 == d + 87);
    }
}

/// Escaped bytes decode to the same bytes.
pub proof fn lemma_escaped_bytes(bytes: Seq<u8>, upper: bool)
    ensures
        ssid_bytes(hex_escaped(bytes, upper)) == bytes,
    decreases bytes.len(),
{
    if bytes.len() > 0 {
        let b = bytes[0] as nat;
        let hi = hex_digit(b / 16, upper);
        let lo = hex_digit(b % 16, upper);
        let rest = hex_escaped(bytes.drop_first(), upper);
        let s = hex_escaped(bytes, upper);
        assert(s == seq!['\\', 'x', hi, lo] + rest);
        lemma_escaped_bytes(bytes.drop_first(), upper);
        lemma_hex_digit(b / 16, upper);
        lemma_hex_digit(b % 16, upper);
        let two = s.subrange(2, 4);
        assert(two =~= seq![hi, lo]);
        assert(s.subrange(4, s.len() as int) =~= rest);
        assert(two[0] != '+');
        assert(crate::numeric::unsigned_digits(two) == two);
        assert(two.drop_last() =~= seq![hi]);
        assert(seq![hi].drop_last() =~= Seq::<char>::empty());
        assert(crate::numeric::digits_value(Seq::<char>::empty(), 16) == 0);
        assert(seq![hi].last() == hi);
        assert(two.last() == lo);
        assert(crate::numeric::digits_value(seq![hi], 16) == b / 16);
        assert(crate::numeric::digits_value(two, 16) == (b / 16) * 16 + b % 16);
        assert((b / 16) * 16 + b % 16 == b) by (nonlinear_arith);
        assert(parse_unsigned(two, 16, 255) == Some(b));
        assert(seq![b as u8] + bytes.drop_first() =~= bytes);
    }
}

/// Any text written byte by byte as `\xHH` escapes, in either case of hex
/// digits, decodes back to that text: its escaped bytes are its UTF-8
/// encoding, which is valid and decodes to the text.
pub proof fn law_escaped_ssid_round_trip(t: Seq<char>, upper: bool)
    ensures
        ssid_bytes(hex_escaped(vstd::utf8::encode_utf8(t), upper)) == vstd::utf8::encode_utf8(t),
        vstd::utf8::valid_utf8(vstd::utf8::encode_utf8(t)),
        vstd::utf8::decode_utf8(vstd::utf8::encode_utf8(t)) == t,
{
    lemma_escaped_bytes(vstd::utf8::encode_utf8(t), upper);
    vstd::utf8::encode_utf8_valid_utf8(t);
    vstd::utf8::encode_utf8_decode_utf8(t);
}

fn ssid_bytes_of(v: &Vec<char>) -> (bytes: Vec<u8>)
    ensures
        bytes@ == ssid_bytes(v@),
{
    let mut bytes: Vec<u8> = Vec::new();
    let mut i: usize = 0;
    let n = v.len();
    assert(v@.subrange(0, n as int) =~= v@);
    while i < n
        invariant
            i <= n == v.len(),
            ssid_bytes(v@) == bytes@ + ssid_bytes(v@.subrange(i as int, n as int)),
        decreases n - i,
    {
        let ghost s = v@.subrange(i as int, n as int);
        let ghost before = bytes@;
        if v[i] == '\\' && i + 1 < n && v[i + 1] == 'x' {
            let end = if n - i < 4 {
                n
            } else {
                i + 4
            };
            let hex = slice_of(v, i + 2, end);
            assert(hex@ =~= s.subrange(2, (end - i) as int));
            assert(s.subrange((end - i) as int, s.len() as int) =~= v@.subrange(
                end as int,
                n as int,
            ));
            match parse_unsigned_chars(&hex, 16, 255) {
                Some(b) => {
                    bytes.push(b as u8);
                },
                None => {},
            }
            assert(ssid_bytes(v@) == bytes@ + ssid_bytes(v@.subrange(end as int, n as int)));
            i = end;
        } else {
            push_utf8(&mut bytes, v[i]);
            assert(s.drop_first() =~= v@.subrange(i + 1, n as int));
            assert(ssid_bytes(v@) == bytes@ + ssid_bytes(v@.subrange(i + 1, n as int)));
            i += 1;
        }
    }
    assert(v@.subrange(n as int, n as int) =~= Seq::<char>::empty());
    assert(bytes@ + seq![] =~= bytes@);
    bytes
}


/// The security label shown for `wpa_cli`'s flags column.
pub open spec fn security_of(flags: Seq<char>) -> Seq<char> {
    if contains_seq(flags, "WPA2"@) {
        "WPA2"@
    } else if contains_seq(flags, "WPA"@) {
        "WPA"@
    } else if contains_seq(flags, "WEP"@) {
        "WEP"@
    } else {
        "开放"@
    }
}

/// The network that one line of `scan_results` describes: tab-separated
/// BSSID, frequency, signal, flags and SSID, where the SSID may itself hold
/// tabs. Lines with fewer fields, or with an empty SSID, describe none; an
/// unreadable frequency reads as 0 and an unreadable signal as -100.
pub open spec fn scan_entry(line: Seq<char>) -> Option<NetworkView> {
    let parts = split_on(line, '\t');
    if parts.len() < 5 {
        None
    } else {
        let ssid = decoded_ssid(join(parts.subrange(4, parts.len() as int), '\t'));
        if ssid.len() == 0 {
            None
        } else {
            Some(
                NetworkView {
                    ssid,
                    bssid: parts[0],
                    signal: match parse_i32(parts[2]) {
                        Some(v) => v as i32,
                        None => -100i32,
                    },
                    security: security_of(parts[3]),
                    frequency: match parse_unsigned(parts[1], 10, u32::MAX as nat) {
                        Some(v) => v as u32,
                        None => 0u32,
                    },
                },
            )
        }
    }
}

pub open spec fn scan_entries(ls: Seq<Seq<char>>) -> Seq<NetworkView>
    decreases ls.len(),
{
    if ls.len() == 0 {
        seq![]
    } else {
        let prev = scan_entries(ls.drop_last());
        match scan_entry(ls.last()) {
            Some(n) => prev.push(n),
            None => prev,
        }
    }
}

/// The networks that the lines after the header describe, in order.
pub open spec fn scan_candidates(results: Seq<char>) -> Seq<NetworkView> {
    let ls = lines(results);
    if ls.len() == 0 {
        seq![]
    } else {
        scan_entries(ls.drop_first())
    }
}

/// Among the candidates named `ssid`, the first one with the strongest signal.
pub open spec fn best_of(cs: Seq<NetworkView>, ssid: Seq<char>) -> Option<NetworkView>
    decreases cs.len(),
{
    if cs.len() == 0 {
        None
    } else {
        let prev = best_of(cs.drop_last(), ssid);
        let c = cs.last();
        if c.ssid != ssid {
            prev
        } else {
            match prev {
                Some(p) => if p.signal >= c.signal {
                    Some(p)
                } else {
                    Some(c)
                },
                None => Some(c),
            }
        }
    }
}

/// `ns` holds one network per SSID of `cs`, the best of its name, strongest
/// signal first.
pub open spec fn is_scan_summary(ns: Seq<NetworkView>, cs: Seq<NetworkView>) -> bool {
    &&& forall|i: int| 0 <= i < ns.len() ==> best_of(cs, #[trigger] ns[i].ssid) == Some(ns[i])
    &&& forall|x: Seq<char>| #[trigger] best_of(cs, x) is Some ==> exists|i: int|
        0 <= i < ns.len() && ns[i].ssid == x
    &&& forall|i: int, j: int| 0 <= i < j < ns.len() ==> ns[i].ssid != ns[j].ssid
    &&& forall|i: int, j: int| 0 <= i < j < ns.len() ==> ns[i].signal >= ns[j].signal
}

pub proof fn lemma_best_of_some(cs: Seq<NetworkView>, j: int)
    requires
        0 <= j < cs.len(),
    ensures
        best_of(cs, cs[j].ssid) is Some,
    decreases cs.len(),
{
    if j < cs.len() - 1 {
        lemma_best_of_some(cs.drop_last(), j);
    }
}

pub proof fn lemma_best_of_named(cs: Seq<NetworkView>, x: Seq<char>)
    ensures
        best_of(cs, x) matches Some(b) ==> b.ssid == x,
    decreases cs.len(),
{
    if cs.len() > 0 {
        lemma_best_of_named(cs.drop_last(), x);
    }
}

/// Every scanned network appears once, as the first line of its SSID with the
/// strongest signal, and the list runs from the strongest signal down.
pub fn parse_scan_results(results: &str) -> (r: Result<Vec<Network>, WifiError>)
    ensures
        r matches Ok(ns) && is_scan_summary(ns@.map_values(|n: Network| n@), scan_candidates(results@)),
{
    let ls = lines_of(results);
    let ghost lv = lines(results@);
    let mut acc: Vec<Network> = Vec::new();
    let ghost mut cs: Seq<NetworkView> = seq![];
    let mut i: usize = 1;
    assert(lv.len() > 0 ==> lv.drop_first().subrange(0, 0) =~= Seq::<Seq<char>>::empty());
    while i < ls.len()
        invariant
            1 <= i,
            ls.deep_view() == lv,
            lv == lines(results@),
            i <= ls.len() ==> cs == scan_entries(lv.drop_first().subrange(0, i - 1)),
            lv.len() == 0 ==> cs == Seq::<NetworkView>::empty(),
            ls.len() > 0 ==> i <= ls.len(),
            is_scan_summary(acc@.map_values(|n: Network| n@), cs),
        decreases ls.len() - i,
    {
        assert(ls@[i as int].deep_view() =~= ls@[i as int]@);
        let ghost prefix = lv.drop_first().subrange(0, i - 1);
        let ghost next = lv.drop_first().subrange(0, i as int);
        assert(next.drop_last() =~= prefix);
        assert(next.last() == ls@[i as int]@);
        let entry = scan_line(&ls[i]);
        match entry {
            Some(n) => {
                let ghost nv = n@;
                insert_best(&mut acc, n, Ghost(cs));
                proof {
                    cs = cs.push(nv);
                }
            },
            None => {},
        }
        i += 1;
    }
    proof {
        if lv.len() > 0 {
            assert(lv.drop_first().subrange(0, ls.len() - 1) =~= lv.drop_first());
        } else {
            assert(cs == Seq::<NetworkView>::empty());
        }
    }
    Ok(acc)
}

fn scan_line(line: &Vec<char>) -> (r: Option<Network>)
    ensures
        r matches Some(n) ==> scan_entry(line@) == Some(n@),
        r is None ==> scan_entry(line@) is None,
{
    let parts = split_chars(line, '\t');
    if parts.len() < 5 {
        return None;
    }
    let ghost pv = parts.deep_view();
    assert(parts@[0].deep_view() =~= parts@[0]@);
    assert(parts@[1].deep_view() =~= parts@[1]@);
    assert(parts@[2].deep_view() =~= parts@[2]@);
    assert(parts@[3].deep_view() =~= parts@[3]@);
    let raw = join_from(&parts, 4, '\t');
    let ssid = decode_wpa_ssid_chars(&raw);
    if ssid.as_str().is_empty() {
        return None;
    }
    let frequency = match parse_u32(&parts[1]) {
        Some(v) => v,
        None => 0,
    };
    let signal = match parse_i32_chars(&parts[2]) {
        Some(v) => v,
        None => -100,
    };
    let security = security_label(&parts[3]);
    Some(
        Network {
            ssid,
            bssid: string_of(&parts[0]),
            signal,
            security,
            frequency,
        },
    )
}

fn decode_wpa_ssid_chars(v: &Vec<char>) -> (out: String)
    ensures
        out@ == decoded_ssid(v@),
{
    let bytes = ssid_bytes_of(v);
    lossy_string(&bytes)
}

fn security_label(flags: &Vec<char>) -> (s: String)
    ensures
        s@ == security_of(flags@),
{
    if contains_chars(flags, &chars_of("WPA2")) {
        String::from_str("WPA2")
    } else if contains_chars(flags, &chars_of("WPA")) {
        String::from_str("WPA")
    } else if contains_chars(flags, &chars_of("WEP")) {
        String::from_str("WEP")
    } else {
        String::from_str("开放")
    }
}

/// Adds `n` as the next candidate: it replaces the network of its SSID when
/// its signal is stronger, and goes where its signal keeps the order.
fn insert_best(acc: &mut Vec<Network>, n: Network, Ghost(cs): Ghost<Seq<NetworkView>>)
    requires
        is_scan_summary(old(acc)@.map_values(|x: Network| x@), cs),
    ensures
        is_scan_summary(final(acc)@.map_values(|x: Network| x@), cs.push(n@)),
{
    let ghost a = old(acc)@.map_values(|x: Network| x@);
    let ghost ncs = cs.push(n@);
    assert(ncs.drop_last() =~= cs);
    let mut k: usize = 0;
    while k < acc.len() && acc[k].ssid != n.ssid
        invariant
            k <= acc.len(),
            acc@ == old(acc)@,
            a == old(acc)@.map_values(|x: Network| x@),
            forall|j: int| 0 <= j < k ==> a[j].ssid != n@.ssid,
        decreases acc.len() - k,
    {
        k += 1;
    }
    if k < acc.len() && acc[k].signal >= n.signal {
        proof {
            assert(best_of(cs, a[k as int].ssid) == Some(a[k as int]));
            assert forall|x: Seq<char>| best_of(ncs, x) == best_of(cs, x) by {}
        }
        return;
    }
    proof {
        assert(best_of(ncs, n@.ssid) == Some(n@)) by {
            if k < acc.len() {
                assert(best_of(cs, a[k as int].ssid) == Some(a[k as int]));
            } else {
                match best_of(cs, n@.ssid) {
                    Some(b) => {
                        assert(exists|i: int| 0 <= i < a.len() && a[i].ssid == n@.ssid);
                        let i = choose|i: int| 0 <= i < a.len() && a[i].ssid == n@.ssid;
                        assert(a[i].ssid != n@.ssid);
                    },
                    None => {},
                }
            }
        }
        assert forall|x: Seq<char>| x != n@.ssid implies best_of(ncs, x) == best_of(cs, x) by {}
    }
    if k < acc.len() {
        acc.remove(k);
    }
    let ghost b = acc@.map_values(|x: Network| x@);
    proof {
        if k < old(acc)@.len() {
            assert forall|t: int| 0 <= t < b.len() implies #[trigger] b[t] == (if t < k {
                a[t]
            } else {
                a[t + 1]
            }) by {}
        } else {
            assert(b =~= a);
        }
    }
    let mut pos: usize = 0;
    while pos < acc.len() && acc[pos].signal >= n.signal
        invariant
            pos <= acc.len(),
            b == acc@.map_values(|x: Network| x@),
            forall|j: int| 0 <= j < pos ==> b[j].signal >= n@.signal,
        decreases acc.len() - pos,
    {
        pos += 1;
    }
    acc.insert(pos, n);
    proof {
        let c = acc@.map_values(|x: Network| x@);
        let nv = old(acc)@.len();
        // Where each element of the new list came from.
        assert forall|t: int| 0 <= t < c.len() implies #[trigger] c[t] == (if t < pos {
            b[t]
        } else if t == pos {
            n@
        } else {
            b[t - 1]
        }) by {}
        // Elements other than n keep their SSIDs distinct from n's.
        assert forall|t: int| 0 <= t < b.len() implies #[trigger] b[t].ssid != n@.ssid by {
            if k < nv {
                if t < k {
                } else {
                    assert(a[k as int].ssid == n@.ssid);
                    assert(t + 1 != k);
                }
            }
        }
        assert forall|t: int| 0 <= t < b.len() implies best_of(cs, #[trigger] b[t].ssid) == Some(
            b[t],
        ) by {
            if k < nv && t >= k {
                assert(b[t] == a[t + 1]);
            }
        }
        assert forall|i: int, j: int| 0 <= i < j < b.len() implies b[i].ssid != b[j].ssid
            && b[i].signal >= b[j].signal by {
            if k < nv {
                let ii = if i < k { i } else { i + 1 };
                let jj = if j < k { j } else { j + 1 };
                assert(b[i] == a[ii] && b[j] == a[jj]);
            } else {
                assert(b[i] == a[i] && b[j] == a[j]);
            }
        }
        assert forall|t: int| pos <= t < b.len() implies #[trigger] b[t].signal < n@.signal by {
            if t > pos {
                assert(b[pos as int].signal >= b[t].signal);
            }
        }
        // The summary of the extended candidates.
        assert forall|i: int| 0 <= i < c.len() implies best_of(ncs, #[trigger] c[i].ssid) == Some(
            c[i],
        ) by {
            if i < pos {
                assert(c[i] == b[i]);
            } else if i > pos {
                assert(c[i] == b[i - 1]);
            }
        }
        assert forall|x: Seq<char>| #[trigger] best_of(ncs, x) is Some implies exists|i: int|
            0 <= i < c.len() && c[i].ssid == x by {
            if x == n@.ssid {
                assert(c[pos as int].ssid == x);
            } else {
                assert(best_of(cs, x) is Some);
                let i = choose|i: int| 0 <= i < a.len() && a[i].ssid == x;
                if k < nv {
                    assert(i != k);
                    let t = if i < k { i } else { i - 1 };
                    assert(b[t] == a[i]);
                    let u = if t < pos { t } else { t + 1 };
                    assert(c[u] == b[t]);
                } else {
                    assert(b[i] == a[i]);
                    let u = if i < pos { i } else { i + 1 };
                    assert(c[u] == b[i]);
                }
            }
        }
        assert forall|i: int, j: int| 0 <= i < j < c.len() implies c[i].ssid != c[j].ssid
            && c[i].signal >= c[j].signal by {
            if i < pos && j < pos {
                assert(c[i] == b[i] && c[j] == b[j]);
            } else if i < pos && j == pos {
                assert(c[i] == b[i]);
            } else if i < pos && j > pos {
                assert(c[i] == b[i] && c[j] == b[j - 1]);
            } else if i == pos {
                assert(c[j] == b[j - 1]);
            } else {
                assert(c[i] == b[i - 1] && c[j] == b[j - 1]);
            }
        }
    }
}


/// The state, SSID and BSSID that `wpa_cli status` reports: the last
/// `wpa_state=`, `ssid=` and `bssid=` lines win, and the state is
/// `DISCONNECTED` when no line gives one.
pub open spec fn status_fields(ls: Seq<Seq<char>>) -> (Seq<char>, Option<Seq<char>>, Option<Seq<char>>)
    decreases ls.len(),
{
    if ls.len() == 0 {
        ("DISCONNECTED"@, None, None)
    } else {
        let prev = status_fields(ls.drop_last());
        let l = ls.last();
        let k = index_of_char(l, '=');
        if k < 0 {
            prev
        } else {
            let key = l.subrange(0, k);
            let value = l.subrange(k + 1, l.len() as int);
            if key == "wpa_state"@ {
                (value, prev.1, prev.2)
            } else if key == "ssid"@ {
                (prev.0, Some(value), prev.2)
            } else if key == "bssid"@ {
                (prev.0, prev.1, Some(value))
            } else {
                prev
            }
        }
    }
}

pub open spec fn opt_view(o: Option<String>) -> Option<Seq<char>> {
    match o {
        Some(s) => Some(s@),
        None => None,
    }
}

/// The status that `wpa_cli status` reports, with the interface's address.
pub fn parse_status(output: &str, ip: Option<String>) -> (st: Status)
    ensures
        (st.state@, opt_view(st.ssid), opt_view(st.bssid)) == status_fields(lines(output@)),
        opt_view(st.ip) == opt_view(ip),
{
    let ls = lines_of(output);
    let ghost lv = lines(output@);
    let mut state = chars_of("DISCONNECTED");
    let mut ssid: Option<Vec<char>> = None;
    let mut bssid: Option<Vec<char>> = None;
    let mut i: usize = 0;
    while i < ls.len()
        invariant
            i <= ls.len(),
            ls.deep_view() == lv,
            (state@, match ssid {
                Some(v) => Some(v@),
                None => None::<Seq<char>>,
            }, match bssid {
                Some(v) => Some(v@),
                None => None::<Seq<char>>,
            }) == status_fields(lv.subrange(0, i as int)),
        decreases ls.len() - i,
    {
        let line = &ls[i];
        assert(ls@[i as int].deep_view() =~= line@);
        assert(lv.subrange(0, i + 1).drop_last() =~= lv.subrange(0, i as int));
        assert(lv.subrange(0, i + 1).last() == line@);
        let k = find_char_from(line, '=', 0);
        assert(line@.subrange(0, line.len() as int) =~= line@);
        if k < line.len() {
            let key = slice_of(line, 0, k);
            let value = slice_of(line, k + 1, line.len());
            if eq_chars(&key, &chars_of("wpa_state")) {
                state = value;
            } else if eq_chars(&key, &chars_of("ssid")) {
                ssid = Some(value);
            } else if eq_chars(&key, &chars_of("bssid")) {
                bssid = Some(value);
            }
        }
        i += 1;
    }
    assert(lv.subrange(0, ls.len() as int) =~= lv);
    Status {
        state: string_of(&state),
        ssid: match ssid {
            Some(v) => Some(string_of(&v)),
            None => None,
        },
        bssid: match bssid {
            Some(v) => Some(string_of(&v)),
            None => None,
        },
        ip,
    }
}

/// The address on one line of `ip -4 addr show`: a trimmed line that starts
/// with `inet ` gives its second field up to the first `/`.
pub open spec fn inet_address(line: Seq<char>) -> Option<Seq<char>> {
    let t = trim(line);
    if starts_with(t, "inet "@) && words(t).len() > 1 {
        Some(split_on(words(t)[1], '/')[0])
    } else {
        None
    }
}

pub open spec fn first_inet(ls: Seq<Seq<char>>) -> Option<Seq<char>>
    decreases ls.len(),
{
    if ls.len() == 0 {
        None
    } else {
        match inet_address(ls[0]) {
            Some(a) => Some(a),
            None => first_inet(ls.drop_first()),
        }
    }
}

/// The first IPv4 address that `ip -4 addr show` lists.
pub fn parse_ip_address(stdout: &str) -> (r: Option<String>)
    ensures
        opt_view(r) == first_inet(lines(stdout@)),
{
    let ls = lines_of(stdout);
    let ghost lv = lines(stdout@);
    let mut i: usize = 0;
    assert(lv.subrange(0, lv.len() as int) =~= lv);
    while i < ls.len()
        invariant
            i <= ls.len(),
            ls.deep_view() == lv,
            lv == lines(stdout@),
            first_inet(lv) == first_inet(lv.subrange(i as int, lv.len() as int)),
        decreases ls.len() - i,
    {
        assert(ls@[i as int].deep_view() =~= ls@[i as int]@);
        let ghost rest = lv.subrange(i as int, lv.len() as int);
        assert(rest[0] == ls@[i as int]@);
        assert(rest.drop_first() =~= lv.subrange(i + 1, lv.len() as int));
        match line_inet_address(&ls[i]) {
            Some(a) => {
                assert(inet_address(rest[0]) == Some(a@));
                assert(first_inet(rest) == Some(a@));
                return Some(string_of(&a));
            },
            None => {},
        }
        i += 1;
    }
    None
}

fn line_inet_address(line: &Vec<char>) -> (r: Option<Vec<char>>)
    ensures
        match r {
            Some(v) => inet_address(line@) == Some(v@),
            None => inet_address(line@) is None,
        },
{
    let t = trim_chars(line);
    if !starts_with_chars(&t, &chars_of("inet ")) {
        return None;
    }
    let ws = split_words(&t);
    if ws.len() <= 1 {
        return None;
    }
    let pieces = split_chars(&ws[1], '/');
    assert(ws@[1].deep_view() =~= ws@[1]@);
    proof {
        crate::text::lemma_split_on_nonempty(ws@[1]@, '/');
    }
    assert(pieces@[0].deep_view() =~= pieces@[0]@);
    Some(slice_of(&pieces[0], 0, pieces[0].len()))
}

/// The ids on the lines after the header of `wpa_cli list_networks` whose
/// second tab-separated field is `ssid`.
pub open spec fn removal_ids(ls: Seq<Seq<char>>, ssid: Seq<char>) -> Seq<Seq<char>>
    decreases ls.len(),
{
    if ls.len() == 0 {
        seq![]
    } else {
        let prev = removal_ids(ls.drop_last(), ssid);
        let parts = split_on(ls.last(), '\t');
        if parts.len() >= 2 && parts[1] == ssid {
            prev.push(parts[0])
        } else {
            prev
        }
    }
}

pub open spec fn networks_matching(list_output: Seq<char>, ssid: Seq<char>) -> Seq<Seq<char>> {
    let ls = lines(list_output);
    if ls.len() == 0 {
        seq![]
    } else {
        removal_ids(ls.drop_first(), ssid)
    }
}

/// The configured networks to remove for `ssid` are, in the order listed,
/// the first tab-separated field of every line after the header of
/// `list_networks` whose second field is `ssid`: every such line, once
/// each, and no other.
pub proof fn law_removal_ids_are_same_named_lines(list_output: Seq<char>, ssid: Seq<char>)
    ensures
        lines(list_output).len() > 0 ==> networks_matching(list_output, ssid) == lines(list_output).drop_first().filter(
            |l: Seq<char>| split_on(l, '\t').len() >= 2 && split_on(l, '\t')[1] == ssid,
        ).map_values(|l: Seq<char>| split_on(l, '\t')[0]),
{
    if lines(list_output).len() > 0 {
        lemma_removal_ids_filter(lines(list_output).drop_first(), ssid);
    }
}

proof fn lemma_removal_ids_filter(ls: Seq<Seq<char>>, ssid: Seq<char>)
    ensures
        removal_ids(ls, ssid) == ls.filter(
            |l: Seq<char>| split_on(l, '\t').len() >= 2 && split_on(l, '\t')[1] == ssid,
        ).map_values(|l: Seq<char>| split_on(l, '\t')[0]),
    decreases ls.len(),
{
    let p = |l: Seq<char>| split_on(l, '\t').len() >= 2 && split_on(l, '\t')[1] == ssid;
    let f = |l: Seq<char>| split_on(l, '\t')[0];
    reveal(Seq::filter);
    if ls.len() == 0 {
        assert(ls.filter(p) =~= Seq::<Seq<char>>::empty());
        assert(ls.filter(p).map_values(f) =~= Seq::<Seq<char>>::empty());
    } else {
        lemma_removal_ids_filter(ls.drop_last(), ssid);
        let prev = ls.drop_last().filter(p);
        if p(ls.last()) {
            assert(ls.filter(p) == prev.push(ls.last()));
            assert(prev.push(ls.last()).map_values(f) =~= prev.map_values(f).push(f(ls.last())));
        } else {
            assert(ls.filter(p) == prev);
        }
    }
}

/// The ids of the configured networks named `ssid`, in the order listed.
pub fn networks_to_remove(list_output: &str, ssid: &str) -> (ids: Vec<String>)
    ensures
        ids@.map_values(|s: String| s@) == networks_matching(list_output@, ssid@),
{
    let ls = lines_of(list_output);
    let target = chars_of(ssid);
    let ghost lv = lines(list_output@);
    let mut ids: Vec<String> = Vec::new();
    let mut i: usize = 1;
    while i < ls.len()
        invariant
            1 <= i,
            ls.deep_view() == lv,
            target@ == ssid@,
            ls.len() > 0 ==> i <= ls.len(),
            ls.len() > 0 ==> ids@.map_values(|s: String| s@) == removal_ids(
                lv.drop_first().subrange(0, i - 1),
                ssid@,
            ),
            ls.len() == 0 ==> ids@.len() == 0,
        decreases ls.len() - i,
    {
        assert(ls@[i as int].deep_view() =~= ls@[i as int]@);
        let ghost next = lv.drop_first().subrange(0, i as int);
        assert(next.drop_last() =~= lv.drop_first().subrange(0, i - 1));
        assert(next.last() == ls@[i as int]@);
        let parts = split_chars(&ls[i], '\t');
        let ghost before = ids@.map_values(|s: String| s@);
        if parts.len() >= 2 {
            assert(parts@[1].deep_view() =~= parts@[1]@);
            assert(parts@[0].deep_view() =~= parts@[0]@);
            if eq_chars(&parts[1], &target) {
                ids.push(string_of(&parts[0]));
                assert(ids@.map_values(|s: String| s@) =~= before.push(parts@[0]@));
            }
        }
        i += 1;
    }
    proof {
        if ls.len() > 0 {
            assert(lv.drop_first().subrange(0, ls.len() - 1) =~= lv.drop_first());
        } else {
            assert(ids@.map_values(|s: String| s@) =~= Seq::<Seq<char>>::empty());
        }
    }
    ids
}


impl View for WifiError {
    type V = Seq<char>;

    open spec fn view(&self) -> Seq<char> {
        self.0@
    }
}

/// `s` with each line break written as `; `.
pub open spec fn join_lines_inline(s: Seq<char>) -> Seq<char>
    decreases s.len(),
{
    if s.len() == 0 {
        seq![]
    } else {
        let rest = join_lines_inline(s.drop_last());
        if s.last() == '\n' {
            rest + "; "@
        } else {
            rest.push(s.last())
        }
    }
}

fn inline_lines(v: &Vec<char>) -> (out: Vec<char>)
    ensures
        out@ == join_lines_inline(v@),
{
    let mut out: Vec<char> = Vec::new();
    let mut i: usize = 0;
    while i < v.len()
        invariant
            i <= v.len(),
            out@ == join_lines_inline(v@.subrange(0, i as int)),
        decreases v.len() - i,
    {
        assert(v@.subrange(0, i + 1).drop_last() =~= v@.subrange(0, i as int));
        if v[i] == '\n' {
            push_str(&mut out, "; ");
        } else {
            out.push(v[i]);
        }
        i += 1;
    }
    assert(v@.subrange(0, v.len() as int) =~= v@);
    out
}

/// The text of one diagnostic query: its reply, or `label: ` and the failure.
pub open spec fn diagnostic_text(label: Seq<char>, r: Result<Seq<char>, Seq<char>>) -> Seq<char> {
    match r {
        Ok(v) => v,
        Err(e) => label + ": "@ + e,
    }
}

pub open spec fn diagnostics_message(
    status: Result<Seq<char>, Seq<char>>,
    networks: Result<Seq<char>, Seq<char>>,
) -> Seq<char> {
    "status => "@ + trim(diagnostic_text("status"@, status)) + " | list_networks => "@ + trim(
        diagnostic_text("list_networks"@, networks),
    )
}

pub open spec fn result_view(r: Result<String, WifiError>) -> Result<Seq<char>, Seq<char>> {
    match r {
        Ok(v) => Ok(v@),
        Err(e) => Err(e@),
    }
}

fn diagnostic_chars(label: &str, r: Result<String, WifiError>) -> (out: Vec<char>)
    ensures
        out@ == diagnostic_text(label@, result_view(r)),
{
    match r {
        Ok(v) => chars_of(v.as_str()),
        Err(e) => {
            let mut out = chars_of(label);
            push_str(&mut out, ": ");
            push_str(&mut out, e.0.as_str());
            out
        },
    }
}

/// What a connection that timed out reports of `wpa_cli status` and
/// `wpa_cli list_networks`.
pub fn connection_diagnostics(
    status: Result<String, WifiError>,
    networks: Result<String, WifiError>,
) -> (out: String)
    ensures
        out@ == diagnostics_message(result_view(status), result_view(networks)),
{
    let s = diagnostic_chars("status", status);
    let n = diagnostic_chars("list_networks", networks);
    let mut out = chars_of("status => ");
    push_all(&mut out, &trim_chars(&s));
    push_str(&mut out, " | list_networks => ");
    push_all(&mut out, &trim_chars(&n));
    string_of(&out)
}

/// The steps of connecting to a network.
#[derive(PartialEq, Eq, Structural, Clone, Copy)]
pub enum ConnectPhase {
    Listing,
    Removing,
    Adding,
    SettingSsid,
    SettingKey,
    Selecting,
    Enabling,
    Saving,
    Waiting,
    Querying,
    Dhcp,
    Settling,
    Diagnosing,
    Finished,
}

/// What the caller reports back after carrying out an action.
pub enum ConnectEvent {
    /// The reply of `wpa_cli`, or the failure to run it.
    Wpa(Result<String, WifiError>),
    Waited,
    /// The state that `status` read, or `None` when reading it failed.
    StatusState(Option<String>),
    DhcpFinished,
    Diagnostics(String),
}

/// What the caller carries out next.
pub enum ConnectAction {
    /// Run `wpa_cli` with these arguments.
    RunWpa(Vec<String>),
    /// Sleep this many seconds.
    Wait(u64),
    QueryStatus,
    /// Run the DHCP client on the interface.
    RunDhcp,
    CollectDiagnostics,
    Finish(Result<(), WifiError>),
}

pub enum ConnectEventView {
    Wpa(Result<Seq<char>, Seq<char>>),
    Waited,
    StatusState(Option<Seq<char>>),
    DhcpFinished,
    Diagnostics(Seq<char>),
}

pub enum ConnectActionView {
    RunWpa(Seq<Seq<char>>),
    Wait(u64),
    QueryStatus,
    RunDhcp,
    CollectDiagnostics,
    Finish(Result<(), Seq<char>>),
}

impl View for ConnectEvent {
    type V = ConnectEventView;

    open spec fn view(&self) -> ConnectEventView {
        match self {
            ConnectEvent::Wpa(r) => ConnectEventView::Wpa(result_view(*r)),
            ConnectEvent::Waited => ConnectEventView::Waited,
            ConnectEvent::StatusState(s) => ConnectEventView::StatusState(opt_view(*s)),
            ConnectEvent::DhcpFinished => ConnectEventView::DhcpFinished,
            ConnectEvent::Diagnostics(d) => ConnectEventView::Diagnostics(d@),
        }
    }
}

impl View for ConnectAction {
    type V = ConnectActionView;

    open spec fn view(&self) -> ConnectActionView {
        match self {
            ConnectAction::RunWpa(args) => ConnectActionView::RunWpa(
                args@.map_values(|a: String| a@),
            ),
            ConnectAction::Wait(s) => ConnectActionView::Wait(*s),
            ConnectAction::QueryStatus => ConnectActionView::QueryStatus,
            ConnectAction::RunDhcp => ConnectActionView::RunDhcp,
            ConnectAction::CollectDiagnostics => ConnectActionView::CollectDiagnostics,
            ConnectAction::Finish(r) => ConnectActionView::Finish(
                match r {
                    Ok(()) => Ok(()),
                    Err(e) => Err(e@),
                },
            ),
        }
    }
}

/// How many times the connection state is polled before giving up.
pub const CONNECT_RETRY_COUNT: usize = 20;

/// A connection in progress.
pub struct ConnectSession {
    ssid: String,
    password: Option<String>,
    phase: ConnectPhase,
    remove_ids: Vec<String>,
    remove_index: usize,
    net_id: String,
    attempt: usize,
    last_state: String,
}

pub struct ConnectModel {
    pub ssid: Seq<char>,
    pub password: Option<Seq<char>>,
    pub phase: ConnectPhase,
    pub remove_ids: Seq<Seq<char>>,
    pub remove_index: nat,
    pub net_id: Seq<char>,
    pub attempt: nat,
    pub last_state: Seq<char>,
}

impl View for ConnectSession {
    type V = ConnectModel;

    closed spec fn view(&self) -> ConnectModel {
        ConnectModel {
            ssid: self.ssid@,
            password: opt_view(self.password),
            phase: self.phase,
            remove_ids: self.remove_ids@.map_values(|s: String| s@),
            remove_index: self.remove_index as nat,
            net_id: self.net_id@,
            attempt: self.attempt as nat,
            last_state: self.last_state@,
        }
    }
}

/// `"` + `s` + `"`, as `wpa_cli` takes a string value.
pub open spec fn quoted(s: Seq<char>) -> Seq<char> {
    seq!['"'] + s + seq!['"']
}

/// Whether the connection uses a key: a password that is present and not empty.
pub open spec fn uses_key(password: Option<Seq<char>>) -> bool {
    password matches Some(p) && p.len() > 0
}

/// The command that sets the network's key: its PSK when there is a
/// password, otherwise the open mode.
pub open spec fn key_command(net_id: Seq<char>, password: Option<Seq<char>>) -> Seq<Seq<char>> {
    if uses_key(password) {
        seq!["set_network"@, net_id, "psk"@, quoted(password->0)]
    } else {
        seq!["set_network"@, net_id, "key_mgmt"@, "NONE"@]
    }
}

/// The action named in the failure of the step that `phase` waits on.
pub open spec fn step_label(phase: ConnectPhase, password: Option<Seq<char>>) -> Seq<char> {
    match phase {
        ConnectPhase::Removing => "清理旧网络配置"@,
        ConnectPhase::SettingSsid => "设置 SSID"@,
        ConnectPhase::SettingKey => if uses_key(password) {
            "设置 WiFi 密码"@
        } else {
            "设置开放网络模式"@
        },
        ConnectPhase::Selecting => "切换目标网络"@,
        ConnectPhase::Enabling => "启用目标网络"@,
        _ => "保存网络配置"@,
    }
}

/// Whether `e` is the kind of report that the session waits for.
pub open spec fn awaits(phase: ConnectPhase, e: ConnectEventView) -> bool {
    match phase {
        ConnectPhase::Waiting | ConnectPhase::Settling => e is Waited,
        ConnectPhase::Querying => e is StatusState,
        ConnectPhase::Dhcp => e is DhcpFinished,
        ConnectPhase::Diagnosing => e is Diagnostics,
        ConnectPhase::Finished => false,
        _ => e is Wpa,
    }
}

pub open spec fn with_phase(m: ConnectModel, phase: ConnectPhase) -> ConnectModel {
    ConnectModel { phase, ..m }
}

pub open spec fn fail(m: ConnectModel, msg: Seq<char>) -> (ConnectModel, ConnectActionView) {
    (with_phase(m, ConnectPhase::Finished), ConnectActionView::Finish(Err(msg)))
}

pub open spec fn add_network_step(m: ConnectModel) -> (ConnectModel, ConnectActionView) {
    (with_phase(m, ConnectPhase::Adding), ConnectActionView::RunWpa(seq!["add_network"@]))
}

pub open spec fn wait_step(m: ConnectModel, attempt: nat, last_state: Seq<char>) -> (
    ConnectModel,
    ConnectActionView,
) {
    (
        ConnectModel { phase: ConnectPhase::Waiting, attempt, last_state, ..m },
        ConnectActionView::Wait(1),
    )
}

/// The step after a command whose reply is `OK`.
pub open spec fn after_ok(m: ConnectModel) -> (ConnectModel, ConnectActionView) {
    match m.phase {
        ConnectPhase::Removing => if m.remove_index + 1 < m.remove_ids.len() {
            (
                ConnectModel { remove_index: m.remove_index + 1, ..m },
                ConnectActionView::RunWpa(
                    seq!["remove_network"@, m.remove_ids[m.remove_index + 1 as int]],
                ),
            )
        } else {
            add_network_step(m)
        },
        ConnectPhase::SettingSsid => (
            with_phase(m, ConnectPhase::SettingKey),
            ConnectActionView::RunWpa(key_command(m.net_id, m.password)),
        ),
        ConnectPhase::SettingKey => (
            with_phase(m, ConnectPhase::Selecting),
            ConnectActionView::RunWpa(seq!["select_network"@, m.net_id]),
        ),
        ConnectPhase::Selecting => (
            with_phase(m, ConnectPhase::Enabling),
            ConnectActionView::RunWpa(seq!["enable_network"@, m.net_id]),
        ),
        ConnectPhase::Enabling => (
            with_phase(m, ConnectPhase::Saving),
            ConnectActionView::RunWpa(seq!["save_config"@]),
        ),
        _ => wait_step(m, 0, "UNKNOWN"@),
    }
}

/// The message when no id could be read from `add_network`'s reply.
pub open spec fn net_id_failure(output: Seq<char>) -> Seq<char> {
    "无法获取网络 ID: "@ + reply_detail(trim(output))
}

pub open spec fn timeout_message(last_state: Seq<char>, detail: Seq<char>) -> Seq<char> {
    "连接超时，最后状态: "@ + last_state + "，诊断信息: "@ + join_lines_inline(detail)
}

/// One step of connecting: from the session and the report of the last
/// action to the next session and action.
pub open spec fn connect_step(m: ConnectModel, e: ConnectEventView) -> (ConnectModel, ConnectActionView) {
    match e {
        ConnectEventView::Wpa(Err(msg)) => fail(m, msg),
        ConnectEventView::Wpa(Ok(out)) => match m.phase {
            ConnectPhase::Listing => {
                let ids = networks_matching(out, m.ssid);
                if ids.len() > 0 {
                    (
                        ConnectModel {
                            phase: ConnectPhase::Removing,
                            remove_ids: ids,
                            remove_index: 0,
                            ..m
                        },
                        ConnectActionView::RunWpa(seq!["remove_network"@, ids[0]]),
                    )
                } else {
                    add_network_step(m)
                }
            },
            ConnectPhase::Adding => match parse_unsigned(trim(out), 10, u32::MAX as nat) {
                None => fail(m, net_id_failure(out)),
                Some(id) => (
                    ConnectModel { phase: ConnectPhase::SettingSsid, net_id: decimal(id), ..m },
                    ConnectActionView::RunWpa(
                        seq!["set_network"@, decimal(id), "ssid"@, quoted(m.ssid)],
                    ),
                ),
            },
            _ => if trim(out) == "OK"@ {
                after_ok(m)
            } else {
                fail(m, wpa_failure_message(step_label(m.phase, m.password), out))
            },
        },
        ConnectEventView::Waited => if m.phase == ConnectPhase::Settling {
            (with_phase(m, ConnectPhase::Finished), ConnectActionView::Finish(Ok(())))
        } else {
            (with_phase(m, ConnectPhase::Querying), ConnectActionView::QueryStatus)
        },
        ConnectEventView::StatusState(st) => {
            let last = match st {
                Some(s) => s,
                None => m.last_state,
            };
            if st == Some("COMPLETED"@) {
                (
                    ConnectModel { phase: ConnectPhase::Dhcp, last_state: last, ..m },
                    ConnectActionView::RunDhcp,
                )
            } else if m.attempt + 1 < CONNECT_RETRY_COUNT {
                wait_step(m, m.attempt + 1, last)
            } else {
                (
                    ConnectModel { phase: ConnectPhase::Diagnosing, last_state: last, ..m },
                    ConnectActionView::CollectDiagnostics,
                )
            }
        },
        ConnectEventView::DhcpFinished => (
            with_phase(m, ConnectPhase::Settling),
            ConnectActionView::Wait(2),
        ),
        ConnectEventView::Diagnostics(d) => fail(m, timeout_message(m.last_state, d)),
    }
}

/// The session's own bounds: the poll count stays below the limit and the
/// index of the network being removed stays in its list.
pub open spec fn connect_wf(m: ConnectModel) -> bool {
    &&& m.attempt < CONNECT_RETRY_COUNT
    &&& m.phase == ConnectPhase::Removing ==> m.remove_index < m.remove_ids.len()
}

fn quote(s: &str) -> (out: String)
    ensures
        out@ == quoted(s@),
{
    let mut v: Vec<char> = Vec::new();
    v.push('"');
    push_str(&mut v, s);
    v.push('"');
    assert(v@ =~= quoted(s@));
    string_of(&v)
}

fn str_vec1(a: &str) -> (out: Vec<String>)
    ensures
        out@.map_values(|s: String| s@) == seq![a@],
{
    let mut out: Vec<String> = Vec::new();
    out.push(String::from_str(a));
    assert(out@.map_values(|s: String| s@) =~= seq![a@]);
    out
}

fn str_vec2(a: &str, b: &str) -> (out: Vec<String>)
    ensures
        out@.map_values(|s: String| s@) == seq![a@, b@],
{
    let mut out: Vec<String> = Vec::new();
    out.push(String::from_str(a));
    out.push(String::from_str(b));
    assert(out@.map_values(|s: String| s@) =~= seq![a@, b@]);
    out
}

fn str_vec4(a: &str, b: &str, c: &str, d: &str) -> (out: Vec<String>)
    ensures
        out@.map_values(|s: String| s@) == seq![a@, b@, c@, d@],
{
    let mut out: Vec<String> = Vec::new();
    out.push(String::from_str(a));
    out.push(String::from_str(b));
    out.push(String::from_str(c));
    out.push(String::from_str(d));
    assert(out@.map_values(|s: String| s@) =~= seq![a@, b@, c@, d@]);
    out
}

impl ConnectSession {
    /// Starts connecting to `ssid`: the first action lists the configured
    /// networks, so that older entries of the same name can be removed.
    pub fn start(ssid: &str, password: Option<&str>) -> (r: (ConnectSession, ConnectAction))
        ensures
            r.0@ == (ConnectModel {
                ssid: ssid@,
                password: match password {
                    Some(p) => Some(p@),
                    None => None,
                },
                phase: ConnectPhase::Listing,
                remove_ids: seq![],
                remove_index: 0,
                net_id: seq![],
                attempt: 0,
                last_state: "UNKNOWN"@,
            }),
            r.1@ == ConnectActionView::RunWpa(seq!["list_networks"@]),
            connect_wf(r.0@),
    {
        let session = ConnectSession {
            ssid: String::from_str(ssid),
            password: match password {
                Some(p) => Some(String::from_str(p)),
                None => None,
            },
            phase: ConnectPhase::Listing,
            remove_ids: Vec::new(),
            remove_index: 0,
            net_id: String::new(),
            attempt: 0,
            last_state: String::from_str("UNKNOWN"),
        };
        assert(session@.remove_ids =~= Seq::<Seq<char>>::empty());
        (session, ConnectAction::RunWpa(str_vec1("list_networks")))
    }

    pub fn phase(&self) -> (p: ConnectPhase)
        ensures
            p == self@.phase,
    {
        self.phase
    }

    /// Whether `e` is the report that this session waits for.
    pub fn awaits(&self, e: &ConnectEvent) -> (b: bool)
        ensures
            b == awaits(self@.phase, e@),
    {
        match self.phase {
            ConnectPhase::Waiting | ConnectPhase::Settling => matches!(e, ConnectEvent::Waited),
            ConnectPhase::Querying => matches!(e, ConnectEvent::StatusState(_)),
            ConnectPhase::Dhcp => matches!(e, ConnectEvent::DhcpFinished),
            ConnectPhase::Diagnosing => matches!(e, ConnectEvent::Diagnostics(_)),
            ConnectPhase::Finished => false,
            _ => matches!(e, ConnectEvent::Wpa(_)),
        }
    }

    fn key_step(&self) -> (a: Vec<String>)
        ensures
            a@.map_values(|s: String| s@) == key_command(self@.net_id, self@.password),
    {
        match &self.password {
            Some(p) if !p.as_str().is_empty() => str_vec4(
                "set_network",
                self.net_id.as_str(),
                "psk",
                quote(p.as_str()).as_str(),
            ),
            _ => str_vec4("set_network", self.net_id.as_str(), "key_mgmt", "NONE"),
        }
    }

    fn label(&self) -> (s: &'static str)
        ensures
            s@ == step_label(self@.phase, self@.password),
    {
        match self.phase {
            ConnectPhase::Removing => "清理旧网络配置",
            ConnectPhase::SettingSsid => "设置 SSID",
            ConnectPhase::SettingKey => match &self.password {
                Some(p) if !p.as_str().is_empty() => "设置 WiFi 密码",
                _ => "设置开放网络模式",
            },
            ConnectPhase::Selecting => "切换目标网络",
            ConnectPhase::Enabling => "启用目标网络",
            _ => "保存网络配置",
        }
    }

    fn finish_err(&mut self, msg: String) -> (a: ConnectAction)
        ensures
            (final(self)@, a@) == fail(old(self)@, msg@),
    {
        self.phase = ConnectPhase::Finished;
        ConnectAction::Finish(Err(WifiError(msg)))
    }

    fn ok_step(&mut self) -> (a: ConnectAction)
        requires
            connect_wf(old(self)@),
            old(self)@.phase != ConnectPhase::Listing,
            old(self)@.phase != ConnectPhase::Adding,
        ensures
            (final(self)@, a@) == after_ok(old(self)@),
    {
        match self.phase {
            ConnectPhase::Removing => {
                assert(self@.remove_ids.len() == self.remove_ids@.len());
                assert(self@.phase == ConnectPhase::Removing);
                assert(self.remove_index < self.remove_ids.len());
                if self.remove_index + 1 < self.remove_ids.len() {
                    self.remove_index = self.remove_index + 1;
                    let id = self.remove_ids[self.remove_index].as_str();
                    ConnectAction::RunWpa(str_vec2("remove_network", id))
                } else {
                    self.phase = ConnectPhase::Adding;
                    ConnectAction::RunWpa(str_vec1("add_network"))
                }
            },
            ConnectPhase::SettingSsid => {
                let args = self.key_step();
                self.phase = ConnectPhase::SettingKey;
                ConnectAction::RunWpa(args)
            },
            ConnectPhase::SettingKey => {
                self.phase = ConnectPhase::Selecting;
                ConnectAction::RunWpa(str_vec2("select_network", self.net_id.as_str()))
            },
            ConnectPhase::Selecting => {
                self.phase = ConnectPhase::Enabling;
                ConnectAction::RunWpa(str_vec2("enable_network", self.net_id.as_str()))
            },
            ConnectPhase::Enabling => {
                self.phase = ConnectPhase::Saving;
                ConnectAction::RunWpa(str_vec1("save_config"))
            },
            _ => {
                self.phase = ConnectPhase::Waiting;
                self.attempt = 0;
                self.last_state = String::from_str("UNKNOWN");
                ConnectAction::Wait(1)
            },
        }
    }

    /// Takes the report of the last action and gives the next one.
    pub fn step(&mut self, event: ConnectEvent) -> (a: ConnectAction)
        requires
            connect_wf(old(self)@),
            awaits(old(self)@.phase, event@),
        ensures
            (final(self)@, a@) == connect_step(old(self)@, event@),
            connect_wf(final(self)@),
    {
        match event {
            ConnectEvent::Wpa(Err(e)) => self.finish_err(e.0),
            ConnectEvent::Wpa(Ok(out)) => {
                match self.phase {
                    ConnectPhase::Listing => {
                        let ids = networks_to_remove(out.as_str(), self.ssid.as_str());
                        if ids.len() > 0 {
                            let first = ids[0].as_str();
                            let args = str_vec2("remove_network", first);
                            self.remove_ids = ids;
                            self.remove_index = 0;
                            self.phase = ConnectPhase::Removing;
                            ConnectAction::RunWpa(args)
                        } else {
                            self.phase = ConnectPhase::Adding;
                            ConnectAction::RunWpa(str_vec1("add_network"))
                        }
                    },
                    ConnectPhase::Adding => {
                        let trimmed = trim_str(out.as_str());
                        match parse_u32(&trimmed) {
                            None => {
                                let mut msg = chars_of("无法获取网络 ID: ");
                                if trimmed.len() == 0 {
                                    push_str(&mut msg, "空响应");
                                } else {
                                    push_all(&mut msg, &trimmed);
                                }
                                self.finish_err(string_of(&msg))
                            },
                            Some(id) => {
                                let id_text = string_of(&decimal_of(id as u64));
                                let q = quote(self.ssid.as_str());
                                let args = str_vec4(
                                    "set_network",
                                    id_text.as_str(),
                                    "ssid",
                                    q.as_str(),
                                );
                                self.net_id = id_text;
                                self.phase = ConnectPhase::SettingSsid;
                                ConnectAction::RunWpa(args)
                            },
                        }
                    },
                    _ => {
                        let trimmed = trim_str(out.as_str());
                        if eq_chars(&trimmed, &chars_of("OK")) {
                            self.ok_step()
                        } else {
                            let mut msg = chars_of(self.label());
                            push_str(&mut msg, " 失败: ");
                            if trimmed.len() == 0 {
                                push_str(&mut msg, "空响应");
                            } else {
                                push_all(&mut msg, &trimmed);
                            }
                            self.finish_err(string_of(&msg))
                        }
                    },
                }
            },
            ConnectEvent::Waited => {
                if self.phase == ConnectPhase::Settling {
                    self.phase = ConnectPhase::Finished;
                    ConnectAction::Finish(Ok(()))
                } else {
                    self.phase = ConnectPhase::Querying;
                    ConnectAction::QueryStatus
                }
            },
            ConnectEvent::StatusState(st) => {
                let completed = match &st {
                    Some(s) => eq_chars(&chars_of(s.as_str()), &chars_of("COMPLETED")),
                    None => false,
                };
                match st {
                    Some(s) => {
                        self.last_state = s;
                    },
                    None => {},
                }
                if completed {
                    self.phase = ConnectPhase::Dhcp;
                    ConnectAction::RunDhcp
                } else if self.attempt + 1 < CONNECT_RETRY_COUNT {
                    self.attempt = self.attempt + 1;
                    self.phase = ConnectPhase::Waiting;
                    ConnectAction::Wait(1)
                } else {
                    self.phase = ConnectPhase::Diagnosing;
                    ConnectAction::CollectDiagnostics
                }
            },
            ConnectEvent::DhcpFinished => {
                self.phase = ConnectPhase::Settling;
                ConnectAction::Wait(2)
            },
            ConnectEvent::Diagnostics(d) => {
                let mut msg = chars_of("连接超时，最后状态: ");
                push_str(&mut msg, self.last_state.as_str());
                push_str(&mut msg, "，诊断信息: ");
                push_all(&mut msg, &inline_lines(&chars_of(d.as_str())));
                self.finish_err(string_of(&msg))
            },
        }
    }
}


/// How many times scan results are fetched before the last ones are taken.
pub const SCAN_RETRY_COUNT: usize = 5;

#[derive(PartialEq, Eq, Structural, Clone, Copy)]
pub enum ScanPhase {
    Triggering,
    Waiting,
    Fetching,
    Finished,
}

/// A scan in progress.
pub struct ScanSession {
    phase: ScanPhase,
    attempt: usize,
}

pub struct ScanModel {
    pub phase: ScanPhase,
    pub attempt: nat,
}

impl View for ScanSession {
    type V = ScanModel;

    closed spec fn view(&self) -> ScanModel {
        ScanModel { phase: self.phase, attempt: self.attempt as nat }
    }
}

pub enum ScanEvent {
    Wpa(Result<String, WifiError>),
    Waited,
}

pub enum ScanAction {
    RunWpa(Vec<String>),
    Wait(u64),
    Finish(Result<Vec<Network>, WifiError>),
}

/// What a scan does next: a command, a pause, the networks read from a
/// `scan_results` reply, or a failure.
pub enum ScanDecision {
    RunWpa(Seq<Seq<char>>),
    Wait(u64),
    Report(Seq<char>),
    Fail(Seq<char>),
}

pub open spec fn scan_event_view(e: ScanEvent) -> Option<Result<Seq<char>, Seq<char>>> {
    match e {
        ScanEvent::Wpa(r) => Some(result_view(r)),
        ScanEvent::Waited => None,
    }
}

pub open spec fn scan_awaits(phase: ScanPhase, e: ScanEvent) -> bool {
    match phase {
        ScanPhase::Waiting => e is Waited,
        ScanPhase::Finished => false,
        _ => e is Wpa,
    }
}

/// One step of scanning. After `scan` is accepted, up to five times: wait a
/// second and fetch `scan_results`; the first reply with data, or else the
/// last one, is read.
pub open spec fn scan_step(m: ScanModel, e: Option<Result<Seq<char>, Seq<char>>>) -> (
    ScanModel,
    ScanDecision,
) {
    let done = ScanModel { phase: ScanPhase::Finished, ..m };
    match e {
        None => (ScanModel { phase: ScanPhase::Fetching, ..m }, ScanDecision::RunWpa(seq!["scan_results"@])),
        Some(Err(msg)) => (done, ScanDecision::Fail(msg)),
        Some(Ok(out)) => if m.phase == ScanPhase::Triggering {
            if trim(out) == "OK"@ {
                (ScanModel { phase: ScanPhase::Waiting, attempt: 0 }, ScanDecision::Wait(1))
            } else {
                (done, ScanDecision::Fail(wpa_failure_message("启动扫描"@, out)))
            }
        } else if scan_has_data(out) || m.attempt + 1 >= SCAN_RETRY_COUNT {
            (done, ScanDecision::Report(out))
        } else {
            (ScanModel { phase: ScanPhase::Waiting, attempt: m.attempt + 1 }, ScanDecision::Wait(1))
        },
    }
}

/// Whether `a` is the action that `d` describes.
pub open spec fn scan_action_is(a: ScanAction, d: ScanDecision) -> bool {
    match (a, d) {
        (ScanAction::RunWpa(args), ScanDecision::RunWpa(x)) => args@.map_values(|s: String| s@) == x,
        (ScanAction::Wait(s), ScanDecision::Wait(t)) => s == t,
        (ScanAction::Finish(Ok(ns)), ScanDecision::Report(text)) => is_scan_summary(
            ns@.map_values(|n: Network| n@),
            scan_candidates(text),
        ),
        (ScanAction::Finish(Err(e)), ScanDecision::Fail(msg)) => e@ == msg,
        _ => false,
    }
}

impl ScanSession {
    /// Starts a scan: the first action asks `wpa_supplicant` to scan.
    pub fn start() -> (r: (ScanSession, ScanAction))
        ensures
            r.0@ == (ScanModel { phase: ScanPhase::Triggering, attempt: 0 }),
            scan_action_is(r.1, ScanDecision::RunWpa(seq!["scan"@])),
    {
        (ScanSession { phase: ScanPhase::Triggering, attempt: 0 }, ScanAction::RunWpa(str_vec1("scan")))
    }

    pub fn awaits(&self, e: &ScanEvent) -> (b: bool)
        ensures
            b == scan_awaits(self@.phase, *e),
    {
        match self.phase {
            ScanPhase::Waiting => matches!(e, ScanEvent::Waited),
            ScanPhase::Finished => false,
            _ => matches!(e, ScanEvent::Wpa(_)),
        }
    }

    /// Takes the report of the last action and gives the next one.
    pub fn step(&mut self, event: ScanEvent) -> (a: ScanAction)
        requires
            old(self)@.attempt < SCAN_RETRY_COUNT,
            scan_awaits(old(self)@.phase, event),
        ensures
            final(self)@ == scan_step(old(self)@, scan_event_view(event)).0,
            scan_action_is(a, scan_step(old(self)@, scan_event_view(event)).1),
            final(self)@.attempt < SCAN_RETRY_COUNT,
    {
        match event {
            ScanEvent::Waited => {
                self.phase = ScanPhase::Fetching;
                ScanAction::RunWpa(str_vec1("scan_results"))
            },
            ScanEvent::Wpa(Err(e)) => {
                self.phase = ScanPhase::Finished;
                ScanAction::Finish(Err(e))
            },
            ScanEvent::Wpa(Ok(out)) => {
                if self.phase == ScanPhase::Triggering {
                    let r = ensure_wpa_ok(out.as_str(), "启动扫描");
                    match r {
                        Ok(()) => {
                            self.phase = ScanPhase::Waiting;
                            self.attempt = 0;
                            ScanAction::Wait(1)
                        },
                        Err(e) => {
                            self.phase = ScanPhase::Finished;
                            ScanAction::Finish(Err(e))
                        },
                    }
                } else if has_scan_data(out.as_str()) || self.attempt + 1 >= SCAN_RETRY_COUNT {
                    self.phase = ScanPhase::Finished;
                    ScanAction::Finish(parse_scan_results(out.as_str()))
                } else {
                    self.attempt = self.attempt + 1;
                    self.phase = ScanPhase::Waiting;
                    ScanAction::Wait(1)
                }
            },
        }
    }
}

} // verus!

verus! {

/// Every step of connecting keeps the session within its bounds: the
/// connection state is polled fewer than `CONNECT_RETRY_COUNT` times.
pub proof fn law_connect_stays_bounded(m: ConnectModel, e: ConnectEventView)
    requires
        connect_wf(m),
        awaits(m.phase, e),
    ensures
        connect_wf(connect_step(m, e).0),
{
}

/// The DHCP client runs only once `wpa_supplicant` reports `COMPLETED`.
pub proof fn law_dhcp_only_after_completed(m: ConnectModel, e: ConnectEventView)
    requires
        awaits(m.phase, e),
        connect_step(m, e).1 == ConnectActionView::RunDhcp,
    ensures
        m.phase == ConnectPhase::Querying,
        e == ConnectEventView::StatusState(Some("COMPLETED"@)),
{
}

/// A connection succeeds only after DHCP ran and the settling pause passed.
pub proof fn law_success_only_after_settling(m: ConnectModel, e: ConnectEventView)
    requires
        awaits(m.phase, e),
        connect_step(m, e).1 == ConnectActionView::Finish(Ok(())),
    ensures
        m.phase == ConnectPhase::Settling,
        e == ConnectEventView::Waited,
{
}

/// A session that reports an outcome is finished, and a finished session
/// takes no further report.
pub proof fn law_finish_ends_session(m: ConnectModel, e: ConnectEventView, next: ConnectEventView)
    requires
        awaits(m.phase, e),
        connect_step(m, e).1 is Finish,
    ensures
        connect_step(m, e).0.phase == ConnectPhase::Finished,
        !awaits(connect_step(m, e).0.phase, next),
{
}

/// Scan results are fetched at most `SCAN_RETRY_COUNT` times.
pub proof fn law_scan_bounded(m: ScanModel, e: Option<Result<Seq<char>, Seq<char>>>)
    requires
        m.attempt < SCAN_RETRY_COUNT,
    ensures
        scan_step(m, e).0.attempt < SCAN_RETRY_COUNT,
{
}

/// A `scan_results` reply with data is read at once.
pub proof fn law_scan_reads_data_at_once(m: ScanModel, out: Seq<char>)
    requires
        m.phase == ScanPhase::Fetching,
        scan_has_data(out),
    ensures
        scan_step(m, Some(Ok(out))).1 == ScanDecision::Report(out),
        scan_step(m, Some(Ok(out))).0.phase == ScanPhase::Finished,
{
}

/// The security label of a network follows the strongest scheme its flags
/// name: `WPA2` whenever the flags contain `WPA2`, whatever else they
/// contain; `WPA` only for flags that contain `WPA` but not `WPA2`; `WEP`
/// only for flags that name neither; open otherwise.
pub proof fn law_security_label(flags: Seq<char>)
    ensures
        contains_seq(flags, "WPA2"@) ==> security_of(flags) == "WPA2"@,
        (security_of(flags) == "WPA"@) <==> (contains_seq(flags, "WPA"@) && !contains_seq(flags, "WPA2"@)),
        !contains_seq(flags, "WPA"@) && !contains_seq(flags, "WPA2"@) && contains_seq(flags, "WEP"@)
            ==> security_of(flags) == "WEP"@,
        !contains_seq(flags, "WPA"@) && !contains_seq(flags, "WPA2"@) && !contains_seq(flags, "WEP"@)
            ==> security_of(flags) == "开放"@,
{
    reveal_strlit("WPA2");
    reveal_strlit("WPA");
    reveal_strlit("WEP");
    reveal_strlit("开放");
    assert("WPA"@.len() != "WPA2"@.len());
    assert("WEP"@[1] != "WPA"@[1]);
    assert("开放"@.len() != "WPA"@.len());
}

/// Every network that a scan line describes carries the label of that
/// line's flags column: `WPA2` whenever the column contains `WPA2`.
pub proof fn law_scan_line_security(line: Seq<char>)
    ensures
        scan_entry(line) matches Some(n) ==> {
            let flags = split_on(line, '\t')[3];
            &&& n.security == security_of(flags)
            &&& contains_seq(flags, "WPA2"@) ==> n.security == "WPA2"@
            &&& (n.security == "WPA"@ <==> contains_seq(flags, "WPA"@) && !contains_seq(flags, "WPA2"@))
        },
{
    law_security_label(split_on(line, '\t')[3]);
}

/// The actions that a connection session takes on the reports `es`, one
/// action for each report, in order.
pub open spec fn connect_actions(m: ConnectModel, es: Seq<ConnectEventView>) -> Seq<ConnectActionView>
    decreases es.len(),
{
    if es.len() == 0 {
        seq![]
    } else {
        let (m2, a) = connect_step(m, es[0]);
        seq![a] + connect_actions(m2, es.drop_first())
    }
}

/// `k` replies of `OK` from `wpa_cli`.
pub open spec fn ok_replies(k: nat) -> Seq<ConnectEventView> {
    Seq::new(k, |i: int| ConnectEventView::Wpa(Ok("OK"@)))
}

/// `remove_network` for each id, in order.
pub open spec fn removals(ids: Seq<Seq<char>>) -> Seq<ConnectActionView> {
    Seq::new(ids.len(), |i: int| ConnectActionView::RunWpa(seq!["remove_network"@, ids[i]]))
}

proof fn lemma_trim_ok()
    ensures
        trim("OK"@) == "OK"@,
{
    reveal_strlit("OK");
    let s = "OK"@;
    assert(!crate::text::is_ws(s[0]));
    assert(!crate::text::is_ws(s.last()));
    assert(crate::text::trim_start(s) == s);
    assert(crate::text::trim_end(s) == s);
}

/// While removing, each `OK` removes the next listed network, and the `OK`
/// after the last removal adds the new network.
proof fn lemma_removing_run(m: ConnectModel, k: nat)
    requires
        m.phase == ConnectPhase::Removing,
        m.remove_index + k + 1 == m.remove_ids.len(),
    ensures
        connect_actions(m, ok_replies(k + 1)) == removals(
            m.remove_ids.subrange(m.remove_index + 1int, m.remove_ids.len() as int),
        ).push(ConnectActionView::RunWpa(seq!["add_network"@])),
    decreases k,
{
    lemma_trim_ok();
    let es = ok_replies(k + 1);
    assert(es[0] == ConnectEventView::Wpa(Ok("OK"@)));
    assert(es.drop_first() =~= ok_replies(k));
    let rest_ids = m.remove_ids.subrange(m.remove_index + 1int, m.remove_ids.len() as int);
    if k == 0 {
        assert(ok_replies(0) =~= Seq::<ConnectEventView>::empty());
        assert(rest_ids.len() == 0);
        assert(removals(rest_ids) =~= Seq::<ConnectActionView>::empty());
        let (m2, a) = connect_step(m, es[0]);
        assert(a == ConnectActionView::RunWpa(seq!["add_network"@]));
        assert(connect_actions(m2, es.drop_first()) == Seq::<ConnectActionView>::empty());
        assert(connect_actions(m, es) =~= seq![ConnectActionView::RunWpa(seq!["add_network"@])]);
    } else {
        let m2 = ConnectModel { remove_index: m.remove_index + 1, ..m };
        assert(connect_step(m, es[0]) == (
            m2,
            ConnectActionView::RunWpa(seq!["remove_network"@, m.remove_ids[m.remove_index + 1 as int]]),
        ));
        lemma_removing_run(m2, (k - 1) as nat);
        let later = m.remove_ids.subrange(m2.remove_index + 1int, m.remove_ids.len() as int);
        assert(removals(rest_ids) =~= seq![
            ConnectActionView::RunWpa(seq!["remove_network"@, m.remove_ids[m.remove_index + 1 as int]]),
        ] + removals(later));
        assert(connect_actions(m, es) == seq![
            ConnectActionView::RunWpa(seq!["remove_network"@, m.remove_ids[m.remove_index + 1 as int]]),
        ] + connect_actions(m2, ok_replies(k)));
        assert(connect_actions(m, es) =~= removals(rest_ids).push(
            ConnectActionView::RunWpa(seq!["add_network"@]),
        ));
    }
}

/// Before a network is added, every configured network with the same SSID
/// is removed: on the reply `out` of `list_networks`, followed by `OK` for
/// each command, the session issues `remove_network` for exactly the ids
/// that `networks_to_remove` finds in `out`, each once and in the listed
/// order, and then `add_network`.
pub proof fn law_connect_removes_every_same_named_network(m: ConnectModel, out: Seq<char>)
    requires
        m.phase == ConnectPhase::Listing,
    ensures
        ({
            let ids = networks_matching(out, m.ssid);
            connect_actions(m, seq![ConnectEventView::Wpa(Ok(out))] + ok_replies(ids.len()))
                == removals(ids).push(ConnectActionView::RunWpa(seq!["add_network"@]))
        }),
{
    let ids = networks_matching(out, m.ssid);
    let es = seq![ConnectEventView::Wpa(Ok(out))] + ok_replies(ids.len());
    assert(es[0] == ConnectEventView::Wpa(Ok(out)));
    assert(es.drop_first() =~= ok_replies(ids.len()));
    if ids.len() == 0 {
        assert(ok_replies(0) =~= Seq::<ConnectEventView>::empty());
        assert(removals(ids) =~= Seq::<ConnectActionView>::empty());
        let (m2, a) = connect_step(m, es[0]);
        assert(a == ConnectActionView::RunWpa(seq!["add_network"@]));
        assert(connect_actions(m2, es.drop_first()) == Seq::<ConnectActionView>::empty());
        assert(connect_actions(m, es) =~= seq![ConnectActionView::RunWpa(seq!["add_network"@])]);
    } else {
        let m2 = ConnectModel { phase: ConnectPhase::Removing, remove_ids: ids, remove_index: 0, ..m };
        assert(connect_step(m, es[0]) == (m2, ConnectActionView::RunWpa(seq!["remove_network"@, ids[0]])));
        lemma_removing_run(m2, (ids.len() - 1) as nat);
        assert(ok_replies((ids.len() - 1) as nat + 1) =~= ok_replies(ids.len()));
        assert(removals(ids) =~= seq![ConnectActionView::RunWpa(seq!["remove_network"@, ids[0]])]
            + removals(ids.subrange(1, ids.len() as int)));
        assert(connect_actions(m, es) =~= removals(ids).push(ConnectActionView::RunWpa(seq!["add_network"@])));
    }
}

} // verus!
