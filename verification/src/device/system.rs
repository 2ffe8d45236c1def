//! Board diagnostics: the CAN interface, the board clock against an NTP
//! server, time synchronisation and reboots.
use vstd::prelude::*;
use crate::device::netif::{
    carrier_of, counter_value, iface_is_up, interface_up, operstate_of, operstate_text,
    parse_carrier, read_counter, read_optional_counter, text_of, InterfaceReadings,
};
use crate::numeric::{decimal, parse_u64, parse_unsigned, push_decimal};
use crate::text::{
    chars_of, debug_option_u64, print_line, push_all, push_debug_option_u64, push_str,
    split_words, string_of, trim, trim_chars, word_after, word_after_in, words,
};

verus! {

/// Seconds between the NTP epoch (1900) and the Unix epoch (1970).
pub const NTP_UNIX_EPOCH_OFFSET: u64 = 2_208_988_800;

/// Seconds between a reboot request and the reboot.
pub const REBOOT_DELAY_SECONDS: u64 = 1;

/// Where the CAN interface is, the tools the diagnostics run, and the NTP
/// server they ask.
#[derive(Clone)]
pub struct SystemDiagnosticConfig {
    can_iface: String,
    canbusload_bin: String,
    can_bitrate: Option<u64>,
    ntp_server: String,
    ntpd_bin: String,
    reboot_bin: String,
}

/// A setting's value, or its default when it is unset.
pub open spec fn setting_or(value: Option<String>, default: Seq<char>) -> Seq<char> {
    match value {
        Some(v) => v@,
        None => default,
    }
}

/// `CAN_BITRATE` read as a `u64`; unset or unreadable gives none.
pub open spec fn bitrate_setting(value: Option<String>) -> Option<u64> {
    match value {
        Some(v) => match parse_unsigned(v@, 10, u64::MAX as nat) {
            Some(n) => Some(n as u64),
            None => None,
        },
        None => None,
    }
}

fn string_or(value: Option<String>, default: &str) -> (s: String)
    ensures
        s@ == setting_or(value, default@),
{
    match value {
        Some(v) => v,
        None => String::from_str(default),
    }
}

impl SystemDiagnosticConfig {
    pub closed spec fn can_iface_view(&self) -> Seq<char> {
        self.can_iface@
    }

    pub closed spec fn canbusload_bin_view(&self) -> Seq<char> {
        self.canbusload_bin@
    }

    pub closed spec fn can_bitrate_view(&self) -> Option<u64> {
        self.can_bitrate
    }

    pub closed spec fn ntp_server_view(&self) -> Seq<char> {
        self.ntp_server@
    }

    pub closed spec fn ntpd_bin_view(&self) -> Seq<char> {
        self.ntpd_bin@
    }

    pub closed spec fn reboot_bin_view(&self) -> Seq<char> {
        self.reboot_bin@
    }

    /// The configuration from `CAN_IFACE`, `CANBUSLOAD_BIN`, `CAN_BITRATE`,
    /// `NTP_SERVER`, `NTPD_BIN` and `REBOOT_BIN`, defaults in place of unset ones.
    pub fn from_env_values(
        can_iface: Option<String>,
        canbusload_bin: Option<String>,
        can_bitrate: Option<String>,
        ntp_server: Option<String>,
        ntpd_bin: Option<String>,
        reboot_bin: Option<String>,
    ) -> (c: SystemDiagnosticConfig)
        ensures
            c.can_iface_view() == setting_or(can_iface, "can0"@),
            c.canbusload_bin_view() == setting_or(canbusload_bin, "canbusload"@),
            c.can_bitrate_view() == bitrate_setting(can_bitrate),
            c.ntp_server_view() == setting_or(ntp_server, "pool.ntp.org"@),
            c.ntpd_bin_view() == setting_or(ntpd_bin, "ntpd"@),
            c.reboot_bin_view() == setting_or(reboot_bin, "reboot"@),
    {
        let bitrate = match &can_bitrate {
            Some(v) => parse_u64(&chars_of(v.as_str())),
            None => None,
        };
        SystemDiagnosticConfig {
            can_iface: string_or(can_iface, "can0"),
            canbusload_bin: string_or(canbusload_bin, "canbusload"),
            can_bitrate: bitrate,
            ntp_server: string_or(ntp_server, "pool.ntp.org"),
            ntpd_bin: string_or(ntpd_bin, "ntpd"),
            reboot_bin: string_or(reboot_bin, "reboot"),
        }
    }

    pub fn can_iface(&self) -> (r: &str)
        ensures
            r@ == self.can_iface_view(),
    {
        self.can_iface.as_str()
    }

    pub fn can_bitrate(&self) -> (r: Option<u64>)
        ensures
            r == self.can_bitrate_view(),
    {
        self.can_bitrate
    }

    pub fn ntp_server(&self) -> (r: &str)
        ensures
            r@ == self.ntp_server_view(),
    {
        self.ntp_server.as_str()
    }

    pub fn ntpd_bin(&self) -> (r: &str)
        ensures
            r@ == self.ntpd_bin_view(),
    {
        self.ntpd_bin.as_str()
    }

    pub fn reboot_bin(&self) -> (r: &str)
        ensures
            r@ == self.reboot_bin_view(),
    {
        self.reboot_bin.as_str()
    }
}

/// A failed diagnostic, with its message.
#[derive(Debug)]
pub struct SystemDiagnosticError(pub String);

/// What is known of the CAN interface. Its bus load is measured apart.
#[derive(Debug, Clone)]
pub struct CanStatus {
    pub iface: String,
    pub exists: bool,
    pub operstate: String,
    pub carrier: Option<bool>,
    pub up: bool,
    pub bitrate: Option<u64>,
    pub rx_packets: u64,
    pub tx_packets: u64,
    pub rx_bytes: u64,
    pub tx_bytes: u64,
    pub rx_errors: u64,
    pub tx_errors: u64,
}

/// The board clock and, when reachable, the time an NTP server gives.
#[derive(Debug, Clone)]
pub struct TimeStatus {
    pub board_time: String,
    pub board_unix_ms: u128,
    pub internet_time: Option<String>,
    pub internet_unix_ms: Option<u128>,
    pub internet_connected: bool,
    pub ntp_server: String,
    pub error: Option<String>,
}

#[derive(Debug, Clone)]
pub struct TimeSyncResult {
    pub synced: bool,
    pub ntp_server: String,
    pub output: String,
}

#[derive(Debug, Clone)]
pub struct RebootResult {
    pub scheduled: bool,
    pub delay_seconds: u64,
}

pub struct SystemDiagnosticService {
    config: SystemDiagnosticConfig,
}

} // verus!

verus! {

/// The bit rate that `ip -details link show <iface>` prints: the word
/// after its first `bitrate`, read as a `u64`.
pub open spec fn can_bitrate_of(output: Seq<char>) -> Option<u64> {
    match word_after(words(output), "bitrate"@) {
        Some(t) => match parse_unsigned(t, 10, u64::MAX as nat) {
            Some(n) => Some(n as u64),
            None => None,
        },
        None => None,
    }
}

pub fn parse_can_bitrate(output: &str) -> (r: Option<u64>)
    ensures
        r == can_bitrate_of(output@),
{
    let w = split_words(&chars_of(output));
    match word_after_in(&w, &chars_of("bitrate")) {
        Some(t) => parse_u64(&t),
        None => None,
    }
}

/// The CAN bit rate: the kernel's `can_bittiming/bitrate`, else what
/// `ip -details link show` prints, else the configured one.
pub open spec fn can_bitrate_from(
    bittiming: Option<Seq<char>>,
    ip_details: Option<Seq<char>>,
    configured: Option<u64>,
) -> Option<u64> {
    match counter_value(bittiming) {
        Some(b) => Some(b),
        None => match ip_details {
            Some(o) => match can_bitrate_of(o) {
                Some(b) => Some(b),
                None => configured,
            },
            None => configured,
        },
    }
}

/// A counter's value, 0 when it cannot be read.
pub open spec fn counter_or_zero(raw: Option<Seq<char>>) -> u64 {
    match counter_value(raw) {
        Some(x) => x,
        None => 0,
    }
}

/// The text of an optional `&str`.
pub open spec fn str_text(o: Option<&str>) -> Option<Seq<char>> {
    match o {
        Some(v) => Some(v@),
        None => None,
    }
}

/// The trimmed output of a command, standard output then standard error.
pub open spec fn command_text(stdout: Seq<char>, stderr: Seq<char>) -> Seq<char> {
    trim(stdout + stderr)
}

fn trimmed_output(stdout: &str, stderr: &str) -> (t: Vec<char>)
    ensures
        t@ == command_text(stdout@, stderr@),
{
    let mut text = chars_of(stdout);
    push_str(&mut text, stderr);
    trim_chars(&text)
}

/// The NTP request: 48 bytes, the first saying version 4, client mode.
pub fn ntp_request() -> (p: Vec<u8>)
    ensures
        p@.len() == 48,
        p@[0] == 0x23,
        forall|i: int| 1 <= i < 48 ==> p@[i] == 0,
{
    let mut p: Vec<u8> = Vec::new();
    p.push(0x23u8);
    let mut i: usize = 1;
    while i < 48
        invariant
            1 <= i <= 48,
            p@.len() == i,
            p@[0] == 0x23,
            forall|j: int| 1 <= j < i ==> p@[j] == 0,
        decreases 48 - i,
    {
        p.push(0u8);
        i += 1;
    }
    p
}

/// Four bytes read as a big-endian number.
pub open spec fn be_u32(b0: u8, b1: u8, b2: u8, b3: u8) -> nat {
    (b0 as nat) * 16777216 + (b1 as nat) * 65536 + (b2 as nat) * 256 + (b3 as nat)
}

/// The transmit time of an NTP response: its whole seconds (from byte 40)
/// and fraction (from byte 44), as seconds and nanoseconds since the Unix
/// epoch. A response shorter than 48 bytes, or a time before 1970, is refused.
pub open spec fn ntp_time_of(response: Seq<u8>, len: nat) -> Result<(u64, u32), Seq<char>> {
    let seconds = be_u32(response[40], response[41], response[42], response[43]);
    let fraction = be_u32(response[44], response[45], response[46], response[47]);
    if len < 48 {
        Err("NTP 响应长度无效"@)
    } else if seconds < NTP_UNIX_EPOCH_OFFSET {
        Err("NTP 时间无效"@)
    } else {
        Ok(((seconds - NTP_UNIX_EPOCH_OFFSET) as u64, ((fraction * 1_000_000_000) / 4294967296) as u32))
    }
}

fn be_u32_of(b0: u8, b1: u8, b2: u8, b3: u8) -> (v: u64)
    ensures
        v == be_u32(b0, b1, b2, b3),
        v < 4294967296,
{
    (b0 as u64) * 16777216 + (b1 as u64) * 65536 + (b2 as u64) * 256 + (b3 as u64)
}

/// The time that an NTP response of `len` bytes gives.
pub fn ntp_time_from_response(response: &[u8; 48], len: usize) -> (r: Result<(u64, u32), SystemDiagnosticError>)
    ensures
        match r {
            Ok(t) => ntp_time_of(response@, len as nat) == Ok::<(u64, u32), Seq<char>>(t),
            Err(e) => ntp_time_of(response@, len as nat) == Err::<(u64, u32), Seq<char>>(e.0@),
        },
{
    if len < 48 {
        return Err(SystemDiagnosticError(String::from_str("NTP 响应长度无效")));
    }
    let seconds = be_u32_of(response[40], response[41], response[42], response[43]);
    let fraction = be_u32_of(response[44], response[45], response[46], response[47]);
    if seconds < NTP_UNIX_EPOCH_OFFSET {
        return Err(SystemDiagnosticError(String::from_str("NTP 时间无效")));
    }
    let product: u128 = (fraction as u128) * 1_000_000_000u128;
    let nanos = product / 4294967296u128;
    assert(nanos < 1_000_000_000) by (nonlinear_arith)
        requires
            nanos == product / 4294967296,
            product == fraction * 1_000_000_000,
            fraction < 4294967296,
    ;
    Ok((seconds - NTP_UNIX_EPOCH_OFFSET, nanos as u32))
}

/// Whole milliseconds in a duration of `secs` seconds and `nanos`
/// nanoseconds, as `Duration::as_millis` counts them.
pub open spec fn millis_of(secs: u64, nanos: u32) -> nat {
    (secs as nat) * 1000 + (nanos as nat) / 1_000_000
}

pub fn duration_millis(secs: u64, nanos: u32) -> (ms: u128)
    ensures
        ms == millis_of(secs, nanos),
{
    (secs as u128) * 1000 + (nanos as u128) / 1_000_000
}

/// The internet time now, from a cached reading: the cached internet time
/// moved on by the time the board clock moved since (by nothing when the
/// board clock went back), saturating at the largest `u128`; none when
/// nothing is cached.
pub open spec fn advanced_internet_ms(cached_internet: Option<u128>, cached_board: u128, board_now: u128) -> Option<u128> {
    match cached_internet {
        Some(i) => {
            let delta: int = if board_now >= cached_board { board_now - cached_board } else { 0 };
            Some(if i + delta > u128::MAX { u128::MAX } else { (i + delta) as u128 })
        },
        None => None,
    }
}

pub fn cached_internet_ms(cached_internet: Option<u128>, cached_board: u128, board_now: u128) -> (r: Option<u128>)
    ensures
        r == advanced_internet_ms(cached_internet, cached_board, board_now),
{
    match cached_internet {
        Some(i) => Some(i.saturating_add(board_now.saturating_sub(cached_board))),
        None => None,
    }
}

/// The whole seconds of a millisecond count, capped at the largest `u64`
/// first, as shown for a cached internet time.
pub open spec fn shown_seconds(ms: u128) -> u64 {
    ((if ms > u64::MAX { u64::MAX as nat } else { ms as nat }) / 1000) as u64
}

pub fn display_seconds(ms: u128) -> (s: u64)
    ensures
        s == shown_seconds(ms),
{
    let capped: u64 = if ms > u64::MAX as u128 {
        u64::MAX
    } else {
        ms as u64
    };
    capped / 1000
}

/// The argument that asks `date` for a Unix time: `@` and the seconds.
pub fn date_argument(seconds: u64) -> (s: String)
    ensures
        s@ == "@"@ + decimal(seconds as nat),
{
    let mut v = chars_of("@");
    push_decimal(&mut v, seconds);
    string_of(&v)
}

/// A formatted time: what `date` printed, trimmed, or the seconds
/// themselves when it failed.
pub open spec fn formatted_time_of(date_output: Option<Seq<char>>, seconds: u64) -> Seq<char> {
    match date_output {
        Some(o) => trim(o),
        None => decimal(seconds as nat),
    }
}

pub fn formatted_time(date_output: Option<&str>, seconds: u64) -> (s: String)
    ensures
        s@ == formatted_time_of(str_text(date_output), seconds),
{
    match date_output {
        Some(o) => string_of(&crate::text::trim_str(o)),
        None => {
            let mut v: Vec<char> = Vec::new();
            push_decimal(&mut v, seconds);
            string_of(&v)
        },
    }
}

/// The board time as `date` printed it, or `-` when it failed.
pub fn board_time_text(date_output: Option<&str>) -> (s: String)
    ensures
        s@ == (match date_output {
            Some(o) => trim(o@),
            None => "-"@,
        }),
{
    match date_output {
        Some(o) => string_of(&crate::text::trim_str(o)),
        None => String::from_str("-"),
    }
}

/// The address to ask an NTP server at: the server on port 123.
pub fn ntp_target(server: &str) -> (s: String)
    ensures
        s@ == server@ + ":123"@,
{
    let mut v = chars_of(server);
    push_str(&mut v, ":123");
    string_of(&v)
}

fn clone_text(s: &Option<String>) -> (r: Option<String>)
    ensures
        text_of(r) == text_of(*s),
{
    match s {
        Some(t) => Some(t.clone()),
        None => None,
    }
}

impl SystemDiagnosticService {
    pub closed spec fn config_view(&self) -> SystemDiagnosticConfig {
        self.config
    }

    pub fn new(config: SystemDiagnosticConfig) -> (s: SystemDiagnosticService)
        ensures
            s.config_view() == config,
    {
        SystemDiagnosticService { config }
    }

    pub fn config(&self) -> (c: &SystemDiagnosticConfig)
        ensures
            *c == self.config_view(),
    {
        &self.config
    }

    pub fn canbusload_bin(&self) -> (r: &str)
        ensures
            r@ == self.config_view().canbusload_bin_view(),
    {
        self.config.canbusload_bin.as_str()
    }

    /// The line that describes the configuration.
    pub fn config_summary(&self) -> (s: String)
        ensures
            s@ == "诊断配置: can_iface="@ + self.config_view().can_iface_view() + ", canbusload_bin="@
                + self.config_view().canbusload_bin_view() + ", can_bitrate="@ + debug_option_u64(
                self.config_view().can_bitrate_view(),
            ) + ", ntp_server="@ + self.config_view().ntp_server_view() + ", ntpd_bin="@
                + self.config_view().ntpd_bin_view() + ", reboot_bin="@
                + self.config_view().reboot_bin_view(),
    {
        let c = &self.config;
        let mut v = chars_of("诊断配置: can_iface=");
        push_str(&mut v, c.can_iface.as_str());
        push_str(&mut v, ", canbusload_bin=");
        push_str(&mut v, c.canbusload_bin.as_str());
        push_str(&mut v, ", can_bitrate=");
        push_debug_option_u64(&mut v, c.can_bitrate);
        push_str(&mut v, ", ntp_server=");
        push_str(&mut v, c.ntp_server.as_str());
        push_str(&mut v, ", ntpd_bin=");
        push_str(&mut v, c.ntpd_bin.as_str());
        push_str(&mut v, ", reboot_bin=");
        push_str(&mut v, c.reboot_bin.as_str());
        string_of(&v)
    }

    /// Prints the configuration summary.
    pub fn print_config(&self) {
        let s = self.config_summary();
        print_line(s.as_str());
    }

    /// The CAN interface's status from what was read of it: whether
    /// `/sys/class/net/<iface>` exists, its files, its `can_bittiming/bitrate`
    /// file and the output of `ip -details link show` (`None` where that
    /// failed or was not needed). A missing interface shows as `missing`.
    pub fn can_status(
        &self,
        exists: bool,
        files: &InterfaceReadings,
        bittiming: &Option<String>,
        ip_details: Option<&str>,
    ) -> (st: CanStatus)
        ensures
            st.iface@ == self.config_view().can_iface_view(),
            st.exists == exists,
            !exists ==> {
                &&& st.operstate@ == "missing"@
                &&& st.carrier is None
                &&& !st.up
                &&& st.bitrate is None
                &&& st.rx_packets == 0 && st.tx_packets == 0 && st.rx_bytes == 0
                &&& st.tx_bytes == 0 && st.rx_errors == 0 && st.tx_errors == 0
            },
            exists ==> {
                &&& st.operstate@ == operstate_of(text_of(files.operstate))
                &&& st.carrier == carrier_of(text_of(files.carrier))
                &&& st.up == iface_is_up(operstate_of(text_of(files.operstate)), text_of(files.flags))
                &&& st.bitrate == can_bitrate_from(
                    text_of(*bittiming),
                    str_text(ip_details),
                    self.config_view().can_bitrate_view(),
                )
                &&& st.rx_packets == counter_or_zero(text_of(files.rx_packets))
                &&& st.tx_packets == counter_or_zero(text_of(files.tx_packets))
                &&& st.rx_bytes == counter_or_zero(text_of(files.rx_bytes))
                &&& st.tx_bytes == counter_or_zero(text_of(files.tx_bytes))
                &&& st.rx_errors == counter_or_zero(text_of(files.rx_errors))
                &&& st.tx_errors == counter_or_zero(text_of(files.tx_errors))
            },
    {
        let iface = self.config.can_iface.clone();
        if !exists {
            return CanStatus {
                iface,
                exists: false,
                operstate: String::from_str("missing"),
                carrier: None,
                up: false,
                bitrate: None,
                rx_packets: 0,
                tx_packets: 0,
                rx_bytes: 0,
                tx_bytes: 0,
                rx_errors: 0,
                tx_errors: 0,
            };
        }
        let operstate = operstate_text(&files.operstate);
        let carrier = parse_carrier(&files.carrier);
        let up = interface_up(operstate.as_str(), &files.flags);
        let bitrate = match read_optional_counter(bittiming) {
            Some(b) => Some(b),
            None => match ip_details {
                Some(o) => match parse_can_bitrate(o) {
                    Some(b) => Some(b),
                    None => self.config.can_bitrate,
                },
                None => self.config.can_bitrate,
            },
        };
        CanStatus {
            iface,
            exists: true,
            operstate,
            carrier,
            up,
            bitrate,
            rx_packets: read_counter(&files.rx_packets),
            tx_packets: read_counter(&files.tx_packets),
            rx_bytes: read_counter(&files.rx_bytes),
            tx_bytes: read_counter(&files.tx_bytes),
            rx_errors: read_counter(&files.rx_errors),
            tx_errors: read_counter(&files.tx_errors),
        }
    }

    /// The time status after asking the NTP server: `internet` is the
    /// server's time in milliseconds with its formatted text, or the error.
    pub fn time_status(&self, board_time: String, board_unix_ms: u128, internet: Result<(u128, String), String>) -> (st: TimeStatus)
        ensures
            st.board_time@ == board_time@,
            st.board_unix_ms == board_unix_ms,
            st.ntp_server@ == self.config_view().ntp_server_view(),
            match internet {
                Ok((ms, text)) => {
                    &&& st.internet_connected
                    &&& st.internet_unix_ms == Some(ms)
                    &&& text_of(st.internet_time) == Some(text@)
                    &&& st.error is None
                },
                Err(e) => {
                    &&& !st.internet_connected
                    &&& st.internet_unix_ms is None
                    &&& st.internet_time is None
                    &&& text_of(st.error) == Some(e@)
                },
            },
    {
        let ntp_server = self.config.ntp_server.clone();
        match internet {
            Ok((ms, text)) => TimeStatus {
                board_time,
                board_unix_ms,
                internet_time: Some(text),
                internet_unix_ms: Some(ms),
                internet_connected: true,
                ntp_server,
                error: None,
            },
            Err(e) => TimeStatus {
                board_time,
                board_unix_ms,
                internet_time: None,
                internet_unix_ms: None,
                internet_connected: false,
                ntp_server,
                error: Some(e),
            },
        }
    }

    /// The time status from the last reading instead of a new query: the
    /// cached internet time moved on by the board clock (its text is
    /// `internet_time_text`, formatted for that time), the rest as cached.
    /// With nothing cached, the status says the internet time is being checked.
    pub fn time_status_from_cached(
        &self,
        cached: Option<&TimeStatus>,
        board_time: String,
        board_unix_ms: u128,
        internet_time_text: Option<String>,
    ) -> (st: TimeStatus)
        ensures
            st.board_time@ == board_time@,
            st.board_unix_ms == board_unix_ms,
            match cached {
                Some(c) => {
                    let ms = advanced_internet_ms(c.internet_unix_ms, c.board_unix_ms, board_unix_ms);
                    &&& st.internet_unix_ms == ms
                    &&& text_of(st.internet_time) == (if ms is Some {
                        text_of(internet_time_text)
                    } else {
                        text_of(c.internet_time)
                    })
                    &&& st.internet_connected == c.internet_connected
                    &&& st.ntp_server@ == c.ntp_server@
                    &&& text_of(st.error) == text_of(c.error)
                },
                None => {
                    &&& st.internet_unix_ms is None
                    &&& st.internet_time is None
                    &&& !st.internet_connected
                    &&& st.ntp_server@ == self.config_view().ntp_server_view()
                    &&& text_of(st.error) == Some("正在检测互联网时间源"@)
                },
            },
    {
        match cached {
            Some(c) => {
                let ms = cached_internet_ms(c.internet_unix_ms, c.board_unix_ms, board_unix_ms);
                let internet_time = if ms.is_some() {
                    internet_time_text
                } else {
                    clone_text(&c.internet_time)
                };
                TimeStatus {
                    board_time,
                    board_unix_ms,
                    internet_time,
                    internet_unix_ms: ms,
                    internet_connected: c.internet_connected,
                    ntp_server: c.ntp_server.clone(),
                    error: clone_text(&c.error),
                }
            },
            None => TimeStatus {
                board_time,
                board_unix_ms,
                internet_time: None,
                internet_unix_ms: None,
                internet_connected: false,
                ntp_server: self.config.ntp_server.clone(),
                error: Some(String::from_str("正在检测互联网时间源")),
            },
        }
    }

    /// The outcome of `ntpd -q -p <server>`: its output (standard output
    /// then standard error) trimmed, as the result or in the failure.
    pub fn sync_result(&self, success: bool, stdout: &str, stderr: &str) -> (r: Result<TimeSyncResult, SystemDiagnosticError>)
        ensures
            match r {
                Ok(t) => success && t.synced && t.ntp_server@ == self.config_view().ntp_server_view()
                    && t.output@ == command_text(stdout@, stderr@),
                Err(e) => !success && e.0@ == "ntpd 同步失败: "@ + command_text(stdout@, stderr@),
            },
    {
        let t = trimmed_output(stdout, stderr);
        if success {
            Ok(TimeSyncResult { synced: true, ntp_server: self.config.ntp_server.clone(), output: string_of(&t) })
        } else {
            let mut msg = chars_of("ntpd 同步失败: ");
            push_all(&mut msg, &t);
            Err(SystemDiagnosticError(string_of(&msg)))
        }
    }

    /// A reboot is scheduled, to run after the delay.
    pub fn reboot_result(&self) -> (r: RebootResult)
        ensures
            r.scheduled,
            r.delay_seconds == REBOOT_DELAY_SECONDS,
    {
        RebootResult { scheduled: true, delay_seconds: REBOOT_DELAY_SECONDS }
    }
}

} // verus!

verus! {

#[verifier::external_type_specification]
#[verifier::external_body]
pub struct ExSystemTime(std::time::SystemTime);

/// How long after the Unix epoch `time` is, as
/// `SystemTime::duration_since(UNIX_EPOCH)` computes it; none for a time
/// before the epoch.
pub uninterp spec fn epoch_duration(time: std::time::SystemTime) -> Option<core::time::Duration>;

/// The whole seconds of a duration, as `Duration::as_secs` gives them.
pub uninterp spec fn duration_secs(d: core::time::Duration) -> u64;

/// The fractional part of a duration in nanoseconds, as
/// `Duration::subsec_nanos` gives it.
pub uninterp spec fn duration_subsec_nanos(d: core::time::Duration) -> u32;

/// `SystemTime::duration_since(UNIX_EPOCH).ok()`: its result depends on
/// `time` alone and is named `epoch_duration`.
#[verifier::external_body]
fn since_unix_epoch(time: &std::time::SystemTime) -> (d: Option<core::time::Duration>)
    ensures
        d == epoch_duration(*time),
{
    time.duration_since(std::time::SystemTime::UNIX_EPOCH).ok()
}

/// `Duration::as_secs`: the whole seconds of `d`, named `duration_secs`.
#[verifier::external_body]
fn whole_seconds(d: &core::time::Duration) -> (s: u64)
    ensures
        s == duration_secs(*d),
{
    d.as_secs()
}

/// `Duration::subsec_nanos`: the fractional part of `d` in nanoseconds,
/// named `duration_subsec_nanos`, which the documentation says is always
/// less than one billion.
#[verifier::external_body]
fn fraction_nanos(d: &core::time::Duration) -> (n: u32)
    ensures
        n == duration_subsec_nanos(*d),
        n < 1_000_000_000,
{
    d.subsec_nanos()
}

/// Milliseconds since the Unix epoch, as `Duration::as_millis` counts them
/// (whole seconds times a thousand plus the whole milliseconds of the
/// fraction); none for a time before the epoch.
pub fn unix_time_ms(time: std::time::SystemTime) -> (ms: Option<u128>)
    ensures
        ms == (match epoch_duration(time) {
            Some(d) => Some(millis_of(duration_secs(d), duration_subsec_nanos(d)) as u128),
            None => None,
        }),
{
    match since_unix_epoch(&time) {
        Some(d) => {
            let secs = whole_seconds(&d);
            let nanos = fraction_nanos(&d);
            Some(duration_millis(secs, nanos))
        },
        None => None,
    }
}

} // verus!
