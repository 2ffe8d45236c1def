//! Integers read from and written as text, in the forms that Rust's
//! `from_str_radix` accepts and `to_string` produces.
use vstd::prelude::*;

verus! {

/// The value of `c` as a digit in `radix` (at most 36), or -1 when `c` is not one.
pub open spec fn digit_value(c: char, radix: nat) -> int {
    let u = c as u32;
    let v: int = if 48 <= u <= 57 {
        u - 48
    } else if 97 <= u <= 122 {
        u - 87
    } else if 65 <= u <= 90 {
        u - 55
    } else {
        -1
    };
    if v < radix {
        v
    } else {
        -1
    }
}

pub open spec fn all_digits(s: Seq<char>, radix: nat) -> bool {
    forall|i: int| 0 <= i < s.len() ==> digit_value(#[trigger] s[i], radix) >= 0
}

/// The number that the digits of `s` spell in `radix`, most significant first.
pub open spec fn digits_value(s: Seq<char>, radix: nat) -> nat
    decreases s.len(),
{
    if s.len() == 0 {
        0
    } else {
        (digits_value(s.drop_last(), radix) * radix + digit_value(s.last(), radix)) as nat
    }
}

/// The text after an optional leading `+`.
pub open spec fn unsigned_digits(s: Seq<char>) -> Seq<char> {
    if s.len() > 0 && s[0] == '+' {
        s.drop_first()
    } else {
        s
    }
}

/// `from_str_radix` of an unsigned integer type whose largest value is `max`:
/// an optional `+`, then at least one digit, and a value that fits.
pub open spec fn parse_unsigned(s: Seq<char>, radix: nat, max: nat) -> Option<nat> {
    let d = unsigned_digits(s);
    if d.len() == 0 || !all_digits(d, radix) {
        None
    } else if digits_value(d, radix) <= max {
        Some(digits_value(d, radix))
    } else {
        None
    }
}

/// `str::parse::<i32>`: an optional sign, then at least one decimal digit,
/// and a value in the range of `i32`.
pub open spec fn parse_i32(s: Seq<char>) -> Option<int> {
    if s.len() > 0 && s[0] == '-' {
        let d = s.drop_first();
        if d.len() == 0 || !all_digits(d, 10) {
            None
        } else if digits_value(d, 10) <= 0x8000_0000 {
            Some(-(digits_value(d, 10) as int))
        } else {
            None
        }
    } else {
        match parse_unsigned(s, 10, 0x7fff_ffff) {
            Some(v) => Some(v as int),
            None => None,
        }
    }
}

/// The decimal digit character for `d`.
pub open spec fn digit_char(d: nat) -> char {
    ((d + 48) as u32) as char
}

/// The decimal text of `n`, as `to_string` writes it.
pub open spec fn decimal(n: nat) -> Seq<char>
    decreases n,
{
    if n < 10 {
        seq![digit_char(n)]
    } else {
        decimal(n / 10).push(digit_char(n % 10))
    }
}

/// The digit character of `d` reads back as `d`, and is neither a dot nor,
/// unless `d` is 0, a zero.
pub proof fn lemma_digit_char(d: nat)
    requires
        d < 10,
    ensures
        digit_value(digit_char(d), 10) == d,
        digit_char(d) != '.',
        d != 0 ==> digit_char(d) != '0',
{
    if d == 0 {
        assert(digit_char(0) == '0');
    } else if d == 1 {
        assert(digit_char(1) == '1');
    } else if d == 2 {
        assert(digit_char(2) == '2');
    } else if d == 3 {
        assert(digit_char(3) == '3');
    } else if d == 4 {
        assert(digit_char(4) == '4');
    } else if d == 5 {
        assert(digit_char(5) == '5');
    } else if d == 6 {
        assert(digit_char(6) == '6');
    } else if d == 7 {
        assert(digit_char(7) == '7');
    } else if d == 8 {
        assert(digit_char(8) == '8');
    } else {
        assert(digit_char(9) == '9');
    }
}

/// The decimal text of `n` is made of digits only, spells `n`, has no
/// leading zero, and has one digit below 10, two below 100, three below 1000.
pub proof fn lemma_decimal_digits(n: nat)
    ensures
        decimal(n).len() >= 1,
        all_digits(decimal(n), 10),
        digits_value(decimal(n), 10) == n,
        decimal(n).len() > 1 ==> decimal(n)[0] != '0',
        forall|j: int| 0 <= j < decimal(n).len() ==> #[trigger] decimal(n)[j] != '.',
        n < 10 ==> decimal(n).len() == 1,
        n >= 10 ==> decimal(n).len() >= 2,
        n < 100 ==> decimal(n).len() <= 2,
        n < 1000 ==> decimal(n).len() <= 3,
    decreases n,
{
    if n < 10 {
        lemma_digit_char(n);
        let s = decimal(n);
        assert(s.drop_last() =~= Seq::<char>::empty());
        assert(digits_value(Seq::<char>::empty(), 10) == 0);
        assert(s.last() == digit_char(n));
        assert(digits_value(s, 10) == digits_value(s.drop_last(), 10) * 10 + digit_value(s.last(), 10));
    } else {
        let p = decimal(n / 10);
        lemma_decimal_digits(n / 10);
        lemma_digit_char(n % 10);
        let s = decimal(n);
        assert(s == p.push(digit_char(n % 10)));
        assert(s.drop_last() =~= p);
        assert(s[0] == p[0]);
        if n / 10 < 10 {
            lemma_digit_char(n / 10);
            assert(p[0] == digit_char(n / 10));
        }
        assert forall|j: int| 0 <= j < s.len() implies digit_value(#[trigger] s[j], 10) >= 0 && s[j] != '.' by {
            if j < p.len() {
                assert(s[j] == p[j]);
            }
        }
        assert(digits_value(s, 10) == digits_value(p, 10) * 10 + n % 10);
        assert((n / 10) * 10 + n % 10 == n) by (nonlinear_arith);
        assert(digits_value(p, 10) == n / 10);
    }
}

pub fn digit_of(c: char, radix: u32) -> (d: Option<u32>)
    requires
        2 <= radix <= 36,
    ensures
        d is Some <==> digit_value(c, radix as nat) >= 0,
        d matches Some(x) ==> x == digit_value(c, radix as nat) && x < radix,
{
    let u = c as u32;
    let v: u32 = if 48 <= u && u <= 57 {
        u - 48
    } else if 97 <= u && u <= 122 {
        u - 87
    } else if 65 <= u && u <= 90 {
        u - 55
    } else {
        return None;
    };
    if v < radix {
        Some(v)
    } else {
        None
    }
}

pub proof fn lemma_digits_value_prefix(s: Seq<char>, radix: nat, k: int)
    requires
        0 <= k <= s.len(),
        radix >= 1,
        all_digits(s, radix),
    ensures
        digits_value(s.subrange(0, k), radix) <= digits_value(s, radix),
    decreases s.len() - k,
{
    if k < s.len() {
        let t = s.drop_last();
        assert(all_digits(t, radix)) by {
            assert forall|i: int| 0 <= i < t.len() implies digit_value(#[trigger] t[i], radix)
                >= 0 by {
                assert(t[i] == s[i]);
            }
        }
        lemma_digits_value_prefix(t, radix, k);
        assert(t.subrange(0, k) =~= s.subrange(0, k));
        let a = digits_value(t, radix);
        assert(digit_value(s[s.len() - 1], radix) >= 0);
        assert(a <= a * radix) by (nonlinear_arith)
            requires
                radix >= 1,
        ;
    } else {
        assert(s.subrange(0, k) =~= s);
    }
}

/// The digits `v[from..]` read in `radix`, when they are all digits, there is
/// at least one, and their value is at most `max`.
pub fn parse_digits(v: &Vec<char>, from: usize, radix: u32, max: u64) -> (r: Option<u64>)
    requires
        from <= v.len(),
        2 <= radix <= 36,
    ensures
        ({
            let d = v@.subrange(from as int, v.len() as int);
            r == (if d.len() == 0 || !all_digits(d, radix as nat) || digits_value(d, radix as nat)
                > max {
                None::<u64>
            } else {
                Some(digits_value(d, radix as nat) as u64)
            })
        }),
{
    let ghost d = v@.subrange(from as int, v.len() as int);
    if from == v.len() {
        return None;
    }
    let mut acc: u64 = 0;
    let mut i = from;
    assert(d.subrange(0, 0) =~= Seq::<char>::empty());
    while i < v.len()
        invariant
            from <= i <= v.len(),
            d == v@.subrange(from as int, v.len() as int),
            2 <= radix <= 36,
            all_digits(d.subrange(0, (i - from) as int), radix as nat),
            acc == digits_value(d.subrange(0, (i - from) as int), radix as nat),
            acc <= max,
        decreases v.len() - i,
    {
        let ghost pre = d.subrange(0, (i - from) as int);
        let ghost next = d.subrange(0, (i - from + 1) as int);
        assert(next.drop_last() =~= pre);
        assert(next.last() == v@[i as int]);
        match digit_of(v[i], radix) {
            None => {
                assert(!all_digits(d, radix as nat)) by {
                    assert(d[(i - from) as int] == v@[i as int]);
                }
                return None;
            },
            Some(dv) => {
                if dv as u64 > max || acc > (max - dv as u64) / radix as u64 {
                    proof {
                        if dv <= max {
                            assert(acc * radix + dv > max) by (nonlinear_arith)
                                requires
                                    acc > (max - dv) / (radix as int),
                                    radix >= 2,
                                    dv <= max,
                            ;
                        } else {
                            assert(acc * radix + dv > max) by (nonlinear_arith)
                                requires
                                    dv > max,
                                    acc >= 0,
                                    radix >= 2,
                            ;
                        }
                        assert(digits_value(next, radix as nat) == acc * radix + dv);
                        if all_digits(d, radix as nat) {
                            lemma_digits_value_prefix(d, radix as nat, (i - from + 1) as int);
                        }
                    }
                    return None;
                }
                proof {
                    assert(acc * radix + dv <= max) by (nonlinear_arith)
                        requires
                            acc <= (max - dv) / (radix as int),
                            radix >= 2,
                            dv <= max,
                    ;
                    assert forall|t: int| 0 <= t < next.len() implies digit_value(
                        #[trigger] next[t],
                        radix as nat,
                    ) >= 0 by {
                        if t < pre.len() {
                            assert(next[t] == pre[t]);
                        }
                    }
                }
                acc = acc * radix as u64 + dv as u64;
                i += 1;
            },
        }
    }
    assert(d.subrange(0, (i - from) as int) =~= d);
    Some(acc)
}

/// `from_str_radix` for an unsigned type whose largest value is `max`.
pub fn parse_unsigned_chars(v: &Vec<char>, radix: u32, max: u64) -> (r: Option<u64>)
    requires
        2 <= radix <= 36,
    ensures
        r matches Some(x) ==> parse_unsigned(v@, radix as nat, max as nat) == Some(x as nat),
        r is None ==> parse_unsigned(v@, radix as nat, max as nat) is None,
{
    let from: usize = if v.len() > 0 && v[0] == '+' {
        1
    } else {
        0
    };
    assert(unsigned_digits(v@) =~= v@.subrange(from as int, v.len() as int));
    parse_digits(v, from, radix, max)
}

/// `str::parse::<u64>`.
pub fn parse_u64(v: &Vec<char>) -> (r: Option<u64>)
    ensures
        r matches Some(x) ==> parse_unsigned(v@, 10, u64::MAX as nat) == Some(x as nat),
        r is None ==> parse_unsigned(v@, 10, u64::MAX as nat) is None,
{
    parse_unsigned_chars(v, 10, u64::MAX)
}

/// `str::parse::<u32>`.
pub fn parse_u32(v: &Vec<char>) -> (r: Option<u32>)
    ensures
        r matches Some(x) ==> parse_unsigned(v@, 10, u32::MAX as nat) == Some(x as nat),
        r is None ==> parse_unsigned(v@, 10, u32::MAX as nat) is None,
{
    match parse_unsigned_chars(v, 10, u32::MAX as u64) {
        Some(x) => Some(x as u32),
        None => None,
    }
}

/// `str::parse::<u8>`.
pub fn parse_u8(v: &Vec<char>) -> (r: Option<u8>)
    ensures
        r matches Some(x) ==> parse_unsigned(v@, 10, 255) == Some(x as nat),
        r is None ==> parse_unsigned(v@, 10, 255) is None,
{
    match parse_unsigned_chars(v, 10, 255) {
        Some(x) => Some(x as u8),
        None => None,
    }
}

/// `str::parse::<usize>`.
pub fn parse_usize(v: &Vec<char>) -> (r: Option<usize>)
    ensures
        r matches Some(x) ==> parse_unsigned(v@, 10, usize::MAX as nat) == Some(x as nat),
        r is None ==> parse_unsigned(v@, 10, usize::MAX as nat) is None,
{
    match parse_unsigned_chars(v, 10, usize::MAX as u64) {
        Some(x) => Some(x as usize),
        None => None,
    }
}

/// `str::parse::<i32>`.
pub fn parse_i32_chars(v: &Vec<char>) -> (r: Option<i32>)
    ensures
        r matches Some(x) ==> parse_i32(v@) == Some(x as int),
        r is None ==> parse_i32(v@) is None,
{
    if v.len() > 0 && v[0] == '-' {
        assert(v@.drop_first() =~= v@.subrange(1, v.len() as int));
        match parse_digits(v, 1, 10, 0x8000_0000) {
            Some(x) => {
                let r: i64 = 0 - (x as i64);
                Some(r as i32)
            },
            None => None,
        }
    } else {
        match parse_unsigned_chars(v, 10, 0x7fff_ffff) {
            Some(x) => Some(x as i32),
            None => None,
        }
    }
}

/// Appends the decimal text of `n`.
pub fn push_decimal(out: &mut Vec<char>, n: u64)
    ensures
        final(out)@ == old(out)@ + decimal(n as nat),
    decreases n,
{
    if n >= 10 {
        push_decimal(out, n / 10);
    }
    let d = n % 10;
    let c = char_from_digit(d as u32);
    out.push(c);
    assert(out@ =~= old(out)@ + decimal(n as nat));
}

fn char_from_digit(d: u32) -> (c: char)
    requires
        d < 10,
    ensures
        c == digit_char(d as nat),
{
    match d {
        0 => '0',
        1 => '1',
        2 => '2',
        3 => '3',
        4 => '4',
        5 => '5',
        6 => '6',
        7 => '7',
        8 => '8',
        _ => '9',
    }
}

/// The decimal text of `n`.
pub fn decimal_of(n: u64) -> (out: Vec<char>)
    ensures
        out@ == decimal(n as nat),
{
    let mut out: Vec<char> = Vec::new();
    push_decimal(&mut out, n);
    assert(out@ =~= decimal(n as nat));
    out
}

} // verus!
