//! What the kernel reports of a network interface under
//! `/sys/class/net/<iface>`, read from the files' contents.
use vstd::prelude::*;
use crate::numeric::{parse_u64, parse_unsigned, parse_unsigned_chars};
use crate::text::{chars_of, eq_chars, slice_of, starts_with, starts_with_chars, string_of, trim, trim_str};

verus! {

/// The contents of an interface's files; `None` where reading failed.
pub struct InterfaceReadings {
    pub operstate: Option<String>,
    pub carrier: Option<String>,
    pub flags: Option<String>,
    pub address: Option<String>,
    pub rx_packets: Option<String>,
    pub tx_packets: Option<String>,
    pub rx_bytes: Option<String>,
    pub tx_bytes: Option<String>,
    pub rx_errors: Option<String>,
    pub tx_errors: Option<String>,
}

pub open spec fn text_of(o: Option<String>) -> Option<Seq<char>> {
    match o {
        Some(s) => Some(s@),
        None => None,
    }
}

/// The trimmed operational state, `unknown` when it could not be read.
pub open spec fn operstate_of(raw: Option<Seq<char>>) -> Seq<char> {
    match raw {
        Some(t) => trim(t),
        None => "unknown"@,
    }
}

pub fn operstate_text(raw: &Option<String>) -> (s: String)
    ensures
        s@ == operstate_of(text_of(*raw)),
{
    match raw {
        Some(t) => string_of(&trim_str(t.as_str())),
        None => String::from_str("unknown"),
    }
}

/// The carrier flag: `1` is up, `0` is down, anything else is unknown.
pub open spec fn carrier_of(raw: Option<Seq<char>>) -> Option<bool> {
    match raw {
        Some(t) => if trim(t) == "1"@ {
            Some(true)
        } else if trim(t) == "0"@ {
            Some(false)
        } else {
            None
        },
        None => None,
    }
}

pub fn parse_carrier(raw: &Option<String>) -> (c: Option<bool>)
    ensures
        c == carrier_of(text_of(*raw)),
{
    match raw {
        Some(t) => {
            let v = trim_str(t.as_str());
            if eq_chars(&v, &chars_of("1")) {
                Some(true)
            } else if eq_chars(&v, &chars_of("0")) {
                Some(false)
            } else {
                None
            }
        },
        None => None,
    }
}

/// The hex digits of an interface's flags, after an optional `0x`.
pub open spec fn flag_digits(flags: Seq<char>) -> Seq<char> {
    if starts_with(flags, "0x"@) {
        flags.subrange(2, flags.len() as int)
    } else {
        flags
    }
}

/// Whether the flags, read as a hex `u32`, have `IFF_UP` (bit 0) set.
pub open spec fn iface_up_flag(flags: Seq<char>) -> bool {
    match parse_unsigned(flag_digits(flags), 16, u32::MAX as nat) {
        Some(v) => v % 2 == 1,
        None => false,
    }
}

pub fn parse_iface_up_flag(flags: &str) -> (b: bool)
    ensures
        b == iface_up_flag(flags@),
{
    let v = chars_of(flags);
    proof {
        reveal_strlit("0x");
    }
    let digits = if starts_with_chars(&v, &chars_of("0x")) {
        slice_of(&v, 2, v.len())
    } else {
        v
    };
    match parse_unsigned_chars(&digits, 16, u32::MAX as u64) {
        Some(x) => {
            assert(x & 1 == x % 2) by (bit_vector);
            x & 1 == 1
        },
        None => false,
    }
}

/// The flags say the interface is up exactly when they read as a hex `u32`
/// (after an optional `0x`) whose bit 0, `IFF_UP`, is set: `0x1003` is up,
/// `0x1002` is not, and flags that do not read as a `u32` never are.
pub proof fn law_up_flag_is_bit_zero(flags: Seq<char>)
    ensures
        iface_up_flag(flags) <==> exists|v: u32| #![trigger v & 1u32]
            parse_unsigned(flag_digits(flags), 16, u32::MAX as nat) == Some(v as nat) && v & 1u32 == 1u32,
{
    match parse_unsigned(flag_digits(flags), 16, u32::MAX as nat) {
        Some(n) => {
            let v = n as u32;
            assert(v as nat == n);
            assert(v & 1u32 == v % 2) by (bit_vector);
            if iface_up_flag(flags) {
                assert(v & 1u32 == 1u32);
            }
            assert forall|w: u32| parse_unsigned(flag_digits(flags), 16, u32::MAX as nat) == Some(w as nat)
                && #[trigger] (w & 1u32) == 1u32 implies iface_up_flag(flags) by {
                assert(w & 1u32 == w % 2) by (bit_vector);
                assert(w == v);
            }
        },
        None => {},
    }
}

/// Whether the interface is up: its state reads `up`, or its flags say so.
pub open spec fn iface_is_up(operstate: Seq<char>, flags: Option<Seq<char>>) -> bool {
    operstate == "up"@ || iface_up_flag(
        match flags {
            Some(f) => trim(f),
            None => seq![],
        },
    )
}

pub fn interface_up(operstate: &str, flags: &Option<String>) -> (b: bool)
    ensures
        b == iface_is_up(operstate@, text_of(*flags)),
{
    if eq_chars(&chars_of(operstate), &chars_of("up")) {
        return true;
    }
    match flags {
        Some(f) => {
            let t = string_of(&trim_str(f.as_str()));
            parse_iface_up_flag(t.as_str())
        },
        None => {
            proof {
                reveal_strlit("");
                assert(""@ =~= Seq::<char>::empty());
            }
            parse_iface_up_flag("")
        },
    }
}

/// A counter read as a trimmed `u64`, or absent.
pub open spec fn counter_value(raw: Option<Seq<char>>) -> Option<u64> {
    match raw {
        Some(t) => match parse_unsigned(trim(t), 10, u64::MAX as nat) {
            Some(v) => Some(v as u64),
            None => None,
        },
        None => None,
    }
}

pub fn read_optional_counter(raw: &Option<String>) -> (v: Option<u64>)
    ensures
        v == counter_value(text_of(*raw)),
{
    match raw {
        Some(t) => parse_u64(&trim_str(t.as_str())),
        None => None,
    }
}

/// A counter, 0 when it cannot be read.
pub fn read_counter(raw: &Option<String>) -> (v: u64)
    ensures
        v == match counter_value(text_of(*raw)) {
            Some(x) => x,
            None => 0,
        },
{
    match read_optional_counter(raw) {
        Some(x) => x,
        None => 0,
    }
}

} // verus!
