//! The HTTP API's own rules: the shapes of its requests and replies, when
//! the diagnostics stream asks the NTP server again, when the bus-load
//! monitor runs, and how the log stream follows the log file.
use vstd::prelude::*;
use crate::device::netif::text_of;
use crate::device::system::CanStatus;
use crate::device::wifi::{Network, Status};
use crate::numeric::{decimal, push_decimal};
use crate::text::{
    chars_of, push_str, split_words, starts_with, starts_with_chars, string_of, strings_of,
    words,
};

verus! {

/// A reply body sent as JSON in UTF-8.
pub struct Utf8Json<T>(pub T);

/// A network as the API lists it.
pub struct NetworkInfo {
    pub ssid: String,
    pub bssid: String,
    pub signal: i32,
    pub security: String,
    pub frequency: u32,
}

/// The connection state as the API reports it.
pub struct StatusInfo {
    pub state: String,
    pub ssid: Option<String>,
    pub bssid: Option<String>,
    pub ip: Option<String>,
}

/// The program's version.
pub struct SystemInfo {
    pub version: &'static str,
}

/// A request to connect to a network; open networks need no password.
pub struct ConnectRequest {
    pub ssid: String,
    pub password: Option<String>,
}

/// How many log lines a request wants.
pub struct LogQuery {
    pub lines: Option<usize>,
}

pub struct DaemonAutoStartRequest {
    pub auto_start: bool,
}

impl NetworkInfo {
    pub fn from_network(n: Network) -> (i: NetworkInfo)
        ensures
            i.ssid@ == n.ssid@,
            i.bssid@ == n.bssid@,
            i.signal == n.signal,
            i.security@ == n.security@,
            i.frequency == n.frequency,
    {
        NetworkInfo {
            ssid: n.ssid,
            bssid: n.bssid,
            signal: n.signal,
            security: n.security,
            frequency: n.frequency,
        }
    }
}

impl StatusInfo {
    pub fn from_status(s: Status) -> (i: StatusInfo)
        ensures
            i.state@ == s.state@,
            text_of(i.ssid) == text_of(s.ssid),
            text_of(i.bssid) == text_of(s.bssid),
            text_of(i.ip) == text_of(s.ip),
    {
        StatusInfo { state: s.state, ssid: s.ssid, bssid: s.bssid, ip: s.ip }
    }
}

/// The password to connect with: an empty one means an open network.
pub fn connect_password(password: Option<&str>) -> (p: Option<&str>)
    ensures
        match password {
            Some(v) => if v@.len() > 0 {
                p == Some(v)
            } else {
                p is None
            },
            None => p is None,
        },
{
    match password {
        Some(v) => if v.is_empty() {
            None
        } else {
            Some(v)
        },
        None => None,
    }
}

/// The log lines a request gets when it does not say: 120.
pub fn requested_log_lines(query: &LogQuery) -> (n: usize)
    ensures
        n == (match query.lines {
            Some(l) => l,
            None => 120,
        }),
{
    match query.lines {
        Some(l) => l,
        None => 120,
    }
}

/// Every how many ticks the diagnostics stream asks the NTP server again.
pub const DIAGNOSTIC_NTP_REFRESH_TICKS: u64 = 30;

/// When the diagnostics stream asks the NTP server and when it uses the
/// cached reading: a count of ticks since the last query.
pub struct DiagnosticSchedule {
    tick_count: u64,
}

impl View for DiagnosticSchedule {
    type V = u64;

    closed spec fn view(&self) -> u64 {
        self.tick_count
    }
}

/// The count before tick `k` of a stream whose ticks all completed: the
/// first tick and every thirtieth after it query the server.
pub open spec fn count_before_tick(k: nat) -> u64
    decreases k,
{
    if k == 0 {
        DIAGNOSTIC_NTP_REFRESH_TICKS
    } else {
        let c = count_before_tick((k - 1) as nat);
        let after_refresh: u64 = if c >= DIAGNOSTIC_NTP_REFRESH_TICKS { 0 } else { c };
        (after_refresh + 1) as u64
    }
}

impl DiagnosticSchedule {
    pub closed spec fn wf(&self) -> bool {
        self.tick_count <= DIAGNOSTIC_NTP_REFRESH_TICKS
    }

    /// A new stream queries the server on its first tick.
    pub fn new() -> (s: DiagnosticSchedule)
        ensures
            s.wf(),
            s@ == DIAGNOSTIC_NTP_REFRESH_TICKS,
    {
        DiagnosticSchedule { tick_count: DIAGNOSTIC_NTP_REFRESH_TICKS }
    }

    /// Whether this tick queries the server; a query restarts the count.
    pub fn begin_tick(&mut self) -> (refresh: bool)
        requires
            old(self).wf(),
        ensures
            final(self).wf(),
            refresh == (old(self)@ >= DIAGNOSTIC_NTP_REFRESH_TICKS),
            final(self)@ == (if refresh { 0 } else { old(self)@ }),
    {
        if self.tick_count >= DIAGNOSTIC_NTP_REFRESH_TICKS {
            self.tick_count = 0;
            true
        } else {
            false
        }
    }

    /// The tick completed.
    pub fn end_tick(&mut self)
        requires
            old(self).wf(),
            old(self)@ < DIAGNOSTIC_NTP_REFRESH_TICKS,
        ensures
            final(self).wf(),
            final(self)@ == old(self)@ + 1,
    {
        self.tick_count = self.tick_count + 1;
    }

    /// Whether a tick may complete: true right after `begin_tick`.
    pub fn can_end_tick(&self) -> (b: bool)
        ensures
            b == (self@ < DIAGNOSTIC_NTP_REFRESH_TICKS),
    {
        self.tick_count < DIAGNOSTIC_NTP_REFRESH_TICKS
    }
}

/// In a stream whose ticks all complete, tick `k` (counting from zero)
/// queries the NTP server exactly when `k` is a multiple of thirty.
pub proof fn law_ntp_refresh_every_thirty_ticks(k: nat)
    ensures
        count_before_tick(k) == (if k % 30 == 0 { 30 } else { k % 30 }),
        (count_before_tick(k) >= DIAGNOSTIC_NTP_REFRESH_TICKS) == (k % 30 == 0),
    decreases k,
{
    if k > 0 {
        law_ntp_refresh_every_thirty_ticks((k - 1) as nat);
    }
}

/// What the bus-load monitor does on a tick.
pub enum CanbusloadAction {
    /// Stop any monitor; there is no load to show.
    Stop,
    /// Keep the monitor that runs.
    Keep,
    /// Stop any monitor and start one on this interface at this bit rate.
    Start(String, u64),
}

pub enum CanbusloadActionView {
    Stop,
    Keep,
    Start(Seq<char>, u64),
}

impl View for CanbusloadAction {
    type V = CanbusloadActionView;

    open spec fn view(&self) -> CanbusloadActionView {
        match self {
            CanbusloadAction::Stop => CanbusloadActionView::Stop,
            CanbusloadAction::Keep => CanbusloadActionView::Keep,
            CanbusloadAction::Start(i, b) => CanbusloadActionView::Start(i@, *b),
        }
    }
}

/// The monitor runs while the interface exists, is up and has a bit rate
/// above zero; it is restarted when the interface or the bit rate changes.
pub open spec fn canbusload_action_of(
    running: Option<(Seq<char>, u64)>,
    iface: Seq<char>,
    present: bool,
    is_up: bool,
    bitrate: Option<u64>,
) -> CanbusloadActionView {
    match bitrate {
        None => CanbusloadActionView::Stop,
        Some(b) => if b == 0 || !present || !is_up {
            CanbusloadActionView::Stop
        } else if running == Some((iface, b)) {
            CanbusloadActionView::Keep
        } else {
            CanbusloadActionView::Start(iface, b)
        },
    }
}

pub fn canbusload_action(running: Option<(&str, u64)>, can: &CanStatus) -> (a: CanbusloadAction)
    ensures
        a@ == canbusload_action_of(
            match running {
                Some((i, b)) => Some((i@, b)),
                None => None,
            },
            can.iface@,
            can.exists,
            can.up,
            can.bitrate,
        ),
{
    match can.bitrate {
        None => CanbusloadAction::Stop,
        Some(b) => {
            if b == 0 || !can.exists || !can.up {
                return CanbusloadAction::Stop;
            }
            let same = match running {
                Some((i, rb)) => rb == b && crate::text::eq_chars(&chars_of(i), &chars_of(can.iface.as_str())),
                None => false,
            };
            if same {
                CanbusloadAction::Keep
            } else {
                CanbusloadAction::Start(can.iface.clone(), b)
            }
        },
    }
}

/// The argument naming the bus to monitor: interface `@` bit rate.
pub fn canbusload_target(iface: &str, bitrate: u64) -> (s: String)
    ensures
        s@ == iface@ + "@"@ + decimal(bitrate as nat),
{
    let mut v = chars_of(iface);
    push_str(&mut v, "@");
    push_decimal(&mut v, bitrate);
    string_of(&v)
}

/// The percentages a line of the monitor's output shows for `iface`: the
/// words that end in `%`, without it, in order; none when the line's first
/// word is not for `iface@`.
pub open spec fn percent_fields_of(line: Seq<char>, iface: Seq<char>) -> Option<Seq<Seq<char>>> {
    let w = words(line);
    if w.len() == 0 || !starts_with(w[0], iface + "@"@) {
        None
    } else {
        Some(percent_words(w))
    }
}

pub open spec fn percent_words(ws: Seq<Seq<char>>) -> Seq<Seq<char>>
    decreases ws.len(),
{
    if ws.len() == 0 {
        seq![]
    } else {
        let prev = percent_words(ws.drop_last());
        let w = ws.last();
        if w.len() > 0 && w.last() == '%' {
            prev.push(w.drop_last())
        } else {
            prev
        }
    }
}

pub fn canbusload_percent_fields(line: &str, iface: &str) -> (r: Option<Vec<String>>)
    ensures
        match r {
            Some(v) => percent_fields_of(line@, iface@) == Some(v@.map_values(|s: String| s@)),
            None => percent_fields_of(line@, iface@) is None,
        },
{
    let w = split_words(&chars_of(line));
    let mut prefix = chars_of(iface);
    push_str(&mut prefix, "@");
    proof {
        crate::text::lemma_deep_chars(w);
    }
    if w.len() == 0 || !starts_with_chars(&w[0], &prefix) {
        return None;
    }
    let ghost wv = w.deep_view();
    let mut out: Vec<Vec<char>> = Vec::new();
    let mut i: usize = 0;
    while i < w.len()
        invariant
            i <= w.len(),
            wv == w.deep_view(),
            wv.len() == w@.len(),
            forall|j: int| 0 <= j < w@.len() ==> #[trigger] wv[j] == w@[j]@,
            out.deep_view() == percent_words(wv.subrange(0, i as int)),
        decreases w.len() - i,
    {
        assert(wv.subrange(0, i + 1).drop_last() =~= wv.subrange(0, i as int));
        assert(wv.subrange(0, i + 1).last() == w@[i as int]@);
        let n = w[i].len();
        if n > 0 && w[i][n - 1] == '%' {
            let ghost before = out.deep_view();
            let piece = crate::text::slice_of(&w[i], 0, n - 1);
            out.push(piece);
            assert(piece.deep_view() =~= piece@);
            assert(piece@ =~= w@[i as int]@.drop_last());
            assert(out.deep_view() =~= before.push(piece@));
        }
        i += 1;
    }
    assert(wv.subrange(0, w.len() as int) =~= wv);
    Some(strings_of(&out))
}

/// Where the log stream has read up to in the log file.
pub struct LogFollower {
    offset: u64,
}

impl View for LogFollower {
    type V = u64;

    closed spec fn view(&self) -> u64 {
        self.offset
    }
}

impl LogFollower {
    /// Following starts at the log's end, as it is now (0 without a log).
    pub fn new(file_len: u64) -> (f: LogFollower)
        ensures
            f@ == file_len,
    {
        LogFollower { offset: file_len }
    }

    /// Where to read new text from, given the log's length now: a log that
    /// got shorter was replaced, and is read from its start; none when
    /// there is nothing new.
    pub fn read_from(&mut self, file_len: u64) -> (start: Option<u64>)
        ensures
            final(self)@ == (if file_len < old(self)@ { 0 } else { old(self)@ }),
            start == (if file_len <= final(self)@ { None } else { Some(final(self)@) }),
    {
        if file_len < self.offset {
            self.offset = 0;
        }
        if file_len <= self.offset {
            None
        } else {
            Some(self.offset)
        }
    }

    /// `n` bytes were read.
    pub fn consumed(&mut self, n: u64)
        requires
            old(self)@ + n <= u64::MAX,
        ensures
            final(self)@ == old(self)@ + n,
    {
        self.offset = self.offset + n;
    }

    pub fn offset(&self) -> (o: u64)
        ensures
            o == self@,
    {
        self.offset
    }
}

} // verus!
