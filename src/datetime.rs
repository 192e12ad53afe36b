//! Date-times: offset date-time, local date-time, local date and local time,
//! with their strict textual form.
//!
//! ```text
//! date   = YYYY "-" MM "-" DD
//! time   = HH ":" MM ":" SS [ "." 1*9DIGIT ]
//! offset = "Z" / "z" / ( "+" / "-" ) HH ":" MM
//! ```
//!
//! Fractional seconds take at most nine digits; more are rejected. When
//! written out, fractional seconds appear only when not zero, with trailing
//! zeros left out.
use vstd::prelude::*;

use crate::raw_string::RawString;
use crate::repr::{Repr, ValueRepr};
use crate::text::{push_char, push_chars};
use crate::value::{digit, digit_char};

verus! {

/// A calendar date. The day is not checked against the month's length.
#[derive(Debug, Clone, Copy, PartialEq, Eq, Structural)]
pub struct Date {
    pub year: u16,
    pub month: u8,
    pub day: u8,
}

/// A time of day.
#[derive(Debug, Clone, Copy, PartialEq, Eq, Structural)]
pub struct Time {
    pub hour: u8,
    pub minute: u8,
    pub second: u8,
    pub nanosecond: u32,
}

/// The offset of a date-time from UTC.
#[derive(Debug, Clone, Copy, PartialEq, Eq, Structural)]
pub enum Offset {
    /// UTC, written `Z`.
    Z,
    /// A signed offset in minutes.
    Custom { minutes: i16 },
}

/// A date-time: which of the three parts are present decides the variant.
#[derive(Debug, Clone, Copy, PartialEq, Eq, Structural)]
pub struct Datetime {
    pub date: Option<Date>,
    pub time: Option<Time>,
    pub offset: Option<Offset>,
}

/// Which part of a date-time could not be read.
#[derive(Debug, Clone, Copy, PartialEq, Eq, Structural)]
pub enum DatetimeParseError {
    InvalidDate,
    InvalidTime,
    InvalidOffset,
}

/// The value of a decimal digit, or -1.
pub open spec fn dec_val(c: char) -> int {
    let v = c as u32;
    if 0x30 <= v <= 0x39 {
        v - 0x30
    } else {
        -1
    }
}

/// The number the `n` decimal digits at `pos` spell, or -1.
pub open spec fn dec_num(s: Seq<char>, pos: int, n: nat) -> int
    decreases n,
{
    if n == 0 {
        0
    } else {
        let h = dec_num(s, pos, (n - 1) as nat);
        let i = pos + n - 1;
        let d = if 0 <= i < s.len() {
            dec_val(s[i])
        } else {
            -1
        };
        if h < 0 || d < 0 {
            -1
        } else {
            h * 10 + d
        }
    }
}

/// `10` to the power `k`.
pub open spec fn pow10(k: nat) -> int
    decreases k,
{
    if k == 0 {
        1
    } else {
        10 * pow10((k - 1) as nat)
    }
}

/// The first position at or after `pos` that holds no decimal digit.
pub open spec fn digits_end(s: Seq<char>, pos: int) -> int
    decreases s.len() - pos,
{
    if 0 <= pos < s.len() && dec_val(s[pos]) >= 0 {
        digits_end(s, pos + 1)
    } else {
        pos
    }
}

/// A date at the start of `s`.
pub open spec fn date_at(s: Seq<char>) -> Option<Date> {
    let y = dec_num(s, 0, 4);
    let m = dec_num(s, 5, 2);
    let d = dec_num(s, 8, 2);
    if s.len() >= 10 && y >= 0 && s[4] == '-' && m >= 1 && m <= 12 && s[7] == '-' && d >= 1 && d
        <= 31 {
        Some(Date { year: y as u16, month: m as u8, day: d as u8 })
    } else {
        None
    }
}

/// A time at `p`, and the position after it.
pub open spec fn time_at(s: Seq<char>, p: int) -> Option<(Time, int)> {
    let h = dec_num(s, p, 2);
    let m = dec_num(s, p + 3, 2);
    let sec = dec_num(s, p + 6, 2);
    if p + 8 <= s.len() && 0 <= h <= 23 && s[p + 2] == ':' && 0 <= m <= 59 && s[p + 5] == ':' && 0
        <= sec <= 59 {
        let q = p + 8;
        if q < s.len() && s[q] == '.' {
            let k = digits_end(s, q + 1) - (q + 1);
            if 1 <= k <= 9 {
                let ns = dec_num(s, q + 1, k as nat) * pow10((9 - k) as nat);
                Some(
                    (
                        Time { hour: h as u8, minute: m as u8, second: sec as u8, nanosecond: ns as u32 },
                        q + 1 + k,
                    ),
                )
            } else {
                None
            }
        } else {
            Some((Time { hour: h as u8, minute: m as u8, second: sec as u8, nanosecond: 0 }, q))
        }
    } else {
        None
    }
}

/// What follows the time of a date-time, from `p` to the end.
pub open spec fn offset_at(s: Seq<char>, p: int) -> Result<Option<Offset>, DatetimeParseError> {
    if p == s.len() {
        Ok(None)
    } else if p + 1 == s.len() && (s[p] == 'Z' || s[p] == 'z') {
        Ok(Some(Offset::Z))
    } else if p + 6 == s.len() && (s[p] == '+' || s[p] == '-') && s[p + 3] == ':' {
        let h = dec_num(s, p + 1, 2);
        let m = dec_num(s, p + 4, 2);
        let total = h * 60 + m;
        if h >= 0 && 0 <= m <= 59 && total <= 1439 {
            Ok(Some(Offset::Custom { minutes: (if s[p] == '-' { -total } else { total }) as i16 }))
        } else {
            Err(DatetimeParseError::InvalidOffset)
        }
    } else {
        Err(DatetimeParseError::InvalidOffset)
    }
}

/// The date-time that `s` spells, or which part of it is wrong.
pub open spec fn parse_spec(s: Seq<char>) -> Result<Datetime, DatetimeParseError> {
    if s.len() >= 3 && s[2] == ':' {
        match time_at(s, 0) {
            Some((t, e)) => if e == s.len() {
                Ok(Datetime { date: None, time: Some(t), offset: None })
            } else {
                Err(DatetimeParseError::InvalidTime)
            },
            None => Err(DatetimeParseError::InvalidTime),
        }
    } else {
        match date_at(s) {
            None => Err(DatetimeParseError::InvalidDate),
            Some(d) => if s.len() == 10 {
                Ok(Datetime { date: Some(d), time: None, offset: None })
            } else if s[10] == 'T' || s[10] == 't' || s[10] == ' ' {
                match time_at(s, 11) {
                    None => Err(DatetimeParseError::InvalidTime),
                    Some((t, e)) => match offset_at(s, e) {
                        Ok(o) => Ok(Datetime { date: Some(d), time: Some(t), offset: o }),
                        Err(k) => Err(k),
                    },
                }
            } else {
                Err(DatetimeParseError::InvalidDate)
            },
        }
    }
}

proof fn lemma_pow10_mono(k: nat, m: nat)
    requires
        k <= m,
    ensures
        1 <= pow10(k) <= pow10(m),
    decreases m,
{
    if m > k {
        lemma_pow10_mono(k, (m - 1) as nat);
    } else if k > 0 {
        lemma_pow10_mono((k - 1) as nat, (k - 1) as nat);
    }
}

proof fn lemma_dec_num_stays_negative(s: Seq<char>, pos: int, k: nat, m: nat)
    requires
        k <= m,
        dec_num(s, pos, k) < 0,
    ensures
        dec_num(s, pos, m) < 0,
    decreases m,
{
    if m > k {
        lemma_dec_num_stays_negative(s, pos, k, (m - 1) as nat);
    }
}

proof fn lemma_dec_num_bound(s: Seq<char>, pos: int, n: nat)
    ensures
        dec_num(s, pos, n) < pow10(n),
    decreases n,
{
    if n > 0 {
        lemma_dec_num_bound(s, pos, (n - 1) as nat);
        let h = dec_num(s, pos, (n - 1) as nat);
        let p = pow10((n - 1) as nat);
        if h >= 0 {
            let i = pos + n - 1;
            if 0 <= i < s.len() && dec_val(s[i]) >= 0 {
                let d = dec_val(s[i]);
                assert(h * 10 + d < p * 10) by (nonlinear_arith)
                    requires
                        h < p,
                        0 <= d < 10,
                ;
            }
        }
        lemma_pow10_mono(0, n);
    }
}

fn dec_value(c: char) -> (r: i64)
    ensures
        r as int == dec_val(c),
{
    let v = c as u32;
    if 0x30 <= v && v <= 0x39 {
        (v - 0x30) as i64
    } else {
        -1
    }
}

/// The number spelled by the `n` decimal digits at `pos`, or -1.
fn read_num(cs: &Vec<char>, pos: usize, n: usize) -> (r: i64)
    requires
        n <= 9,
    ensures
        r as int == dec_num(cs@, pos as int, n as nat),
{
    let mut acc: i64 = 0;
    let mut k: usize = 0;
    proof {
        reveal_with_fuel(pow10, 10);
    }
    while k < n
        invariant
            k <= n <= 9,
            dec_num(cs@, pos as int, k as nat) == acc as int,
            0 <= acc < pow10(k as nat),
            pow10(9) == 1_000_000_000,
        decreases n - k,
    {
        proof {
            lemma_pow10_mono(k as nat, 9);
        }
        if pos >= cs.len() || k >= cs.len() - pos {
            proof {
                lemma_dec_num_stays_negative(cs@, pos as int, (k + 1) as nat, n as nat);
            }
            return -1;
        }
        let d = dec_value(cs[pos + k]);
        if d < 0 {
            proof {
                lemma_dec_num_stays_negative(cs@, pos as int, (k + 1) as nat, n as nat);
            }
            return -1;
        }
        proof {
            let p = pow10(k as nat);
            assert(acc * 10 + d < p * 10) by (nonlinear_arith)
                requires
                    acc < p,
                    0 <= d < 10,
            ;
        }
        acc = acc * 10 + d;
        k = k + 1;
    }
    acc
}

fn scan_digits(cs: &Vec<char>, pos: usize) -> (r: usize)
    requires
        pos <= cs@.len(),
    ensures
        r as int == digits_end(cs@, pos as int),
        pos <= r <= cs@.len(),
{
    let mut i: usize = pos;
    while i < cs.len() && dec_value(cs[i]) >= 0
        invariant
            pos <= i <= cs@.len(),
            digits_end(cs@, i as int) == digits_end(cs@, pos as int),
        decreases cs@.len() - i,
    {
        i = i + 1;
    }
    i
}

fn read_date(cs: &Vec<char>) -> (r: Option<Date>)
    ensures
        r == date_at(cs@),
{
    if cs.len() < 10 {
        return None;
    }
    let y = read_num(cs, 0, 4);
    let m = read_num(cs, 5, 2);
    let d = read_num(cs, 8, 2);
    proof {
        lemma_dec_num_bound(cs@, 0, 4);
        reveal_with_fuel(pow10, 5);
    }
    if y >= 0 && cs[4] == '-' && m >= 1 && m <= 12 && cs[7] == '-' && d >= 1 && d <= 31 {
        Some(Date { year: y as u16, month: m as u8, day: d as u8 })
    } else {
        None
    }
}

fn read_time(cs: &Vec<char>, p: usize) -> (r: Option<(Time, usize)>)
    requires
        p <= cs@.len(),
    ensures
        match time_at(cs@, p as int) {
            Some((t, e)) => r == Some((t, e as usize)) && e <= cs@.len(),
            None => r is None,
        },
{
    if cs.len() < 8 || p > cs.len() - 8 {
        return None;
    }
    let h = read_num(cs, p, 2);
    let m = read_num(cs, p + 3, 2);
    let sec = read_num(cs, p + 6, 2);
    if !(0 <= h && h <= 23 && cs[p + 2] == ':' && 0 <= m && m <= 59 && cs[p + 5] == ':' && 0 <= sec
        && sec <= 59) {
        return None;
    }
    let q = p + 8;
    if q < cs.len() && cs[q] == '.' {
        let e = scan_digits(cs, q + 1);
        let k = e - (q + 1);
        if 1 <= k && k <= 9 {
            let v = read_num(cs, q + 1, k);
            let mut scale: i64 = 1;
            let mut j: usize = k;
            proof {
                lemma_dec_num_bound(cs@, q + 1, k as nat);
                lemma_digits_nonneg(cs@, q + 1, k as nat);
            }
            while j < 9
                invariant
                    k <= j <= 9,
                    scale as int == pow10((j - k) as nat),
                    0 <= v < pow10(k as nat),
                    v as int == dec_num(cs@, q + 1, k as nat),
                decreases 9 - j,
            {
                proof {
                    lemma_pow10_mono((j - k) as nat, (9 - k) as nat);
                    lemma_pow10_mono(k as nat, k as nat);
                    let a = pow10(k as nat);
                    let b = pow10((9 - k) as nat);
                    assert(pow10(k as nat) * pow10((9 - k) as nat) == pow10(9)) by {
                        lemma_pow10_add(k as nat, (9 - k) as nat);
                    }
                    reveal_with_fuel(pow10, 10);
                    assert(scale * 10 <= b) by {
                        lemma_pow10_mono((j + 1 - k) as nat, (9 - k) as nat);
                    }
                }
                scale = scale * 10;
                j = j + 1;
            }
            proof {
                let a = pow10(k as nat);
                let b = pow10((9 - k) as nat);
                lemma_pow10_add(k as nat, (9 - k) as nat);
                reveal_with_fuel(pow10, 10);
                assert(v * scale < a * b) by (nonlinear_arith)
                    requires
                        0 <= v < a,
                        1 <= scale == b,
                ;
            }
            let ns = v * scale;
            Some((Time { hour: h as u8, minute: m as u8, second: sec as u8, nanosecond: ns as u32 }, e))
        } else {
            None
        }
    } else {
        Some((Time { hour: h as u8, minute: m as u8, second: sec as u8, nanosecond: 0 }, q))
    }
}

proof fn lemma_digits_end_digit(s: Seq<char>, p: int, i: int)
    requires
        0 <= p <= i < digits_end(s, p),
    ensures
        0 <= i < s.len(),
        dec_val(s[i]) >= 0,
    decreases i - p,
{
    if i > p {
        lemma_digits_end_digit(s, p + 1, i);
    }
}

proof fn lemma_digits_nonneg(s: Seq<char>, p: int, n: nat)
    requires
        0 <= p,
        p + n <= digits_end(s, p),
    ensures
        dec_num(s, p, n) >= 0,
    decreases n,
{
    if n > 0 {
        lemma_digits_nonneg(s, p, (n - 1) as nat);
        lemma_digits_end_digit(s, p, p + n - 1);
    }
}

proof fn lemma_pow10_add(a: nat, b: nat)
    ensures
        pow10(a) * pow10(b) == pow10(a + b),
    decreases a,
{
    if a > 0 {
        lemma_pow10_add((a - 1) as nat, b);
        assert(pow10(a) * pow10(b) == 10 * (pow10((a - 1) as nat) * pow10(b))) by (nonlinear_arith)
            requires
                pow10(a) == 10 * pow10((a - 1) as nat),
        ;
    }
}

fn read_offset(cs: &Vec<char>, p: usize) -> (r: Result<Option<Offset>, DatetimeParseError>)
    requires
        p <= cs@.len(),
    ensures
        r == offset_at(cs@, p as int),
{
    let n = cs.len();
    if p == n {
        Ok(None)
    } else if p + 1 == n && (cs[p] == 'Z' || cs[p] == 'z') {
        Ok(Some(Offset::Z))
    } else if n >= 6 && p == n - 6 && (cs[p] == '+' || cs[p] == '-') && cs[p + 3] == ':' {
        let h = read_num(cs, p + 1, 2);
        let m = read_num(cs, p + 4, 2);
        proof {
            lemma_dec_num_bound(cs@, p + 1, 2);
            reveal_with_fuel(pow10, 3);
        }
        if h >= 0 && 0 <= m && m <= 59 && h * 60 + m <= 1439 {
            let total = h * 60 + m;
            let minutes: i64 = if cs[p] == '-' {
                -total
            } else {
                total
            };
            Ok(Some(Offset::Custom { minutes: minutes as i16 }))
        } else {
            Err(DatetimeParseError::InvalidOffset)
        }
    } else {
        Err(DatetimeParseError::InvalidOffset)
    }
}

impl Datetime {
    /// Reads a date-time written in the module's grammar: an offset
    /// date-time, a local date-time, a local date or a local time. The date
    /// and time of a date-time are separated by `T`, `t` or a space.
    pub fn parse(input: &str) -> (r: Result<Datetime, DatetimeParseError>)
        ensures
            r == parse_spec(input@),
    {
        let cs = crate::text::chars_of(input);
        if cs.len() >= 3 && cs[2] == ':' {
            return match read_time(&cs, 0) {
                Some((t, e)) => if e == cs.len() {
                    Ok(Datetime { date: None, time: Some(t), offset: None })
                } else {
                    Err(DatetimeParseError::InvalidTime)
                },
                None => Err(DatetimeParseError::InvalidTime),
            };
        }
        match read_date(&cs) {
            None => Err(DatetimeParseError::InvalidDate),
            Some(d) => if cs.len() == 10 {
                Ok(Datetime { date: Some(d), time: None, offset: None })
            } else if cs[10] == 'T' || cs[10] == 't' || cs[10] == ' ' {
                match read_time(&cs, 11) {
                    None => Err(DatetimeParseError::InvalidTime),
                    Some((t, e)) => match read_offset(&cs, e) {
                        Ok(o) => Ok(Datetime { date: Some(d), time: Some(t), offset: o }),
                        Err(k) => Err(k),
                    },
                }
            } else {
                Err(DatetimeParseError::InvalidDate)
            },
        }
    }
}

/// The last `w` decimal digits of `n`, zero-padded.
pub open spec fn fixed(n: nat, w: nat) -> Seq<char>
    decreases w,
{
    if w == 0 {
        Seq::empty()
    } else {
        fixed(n / 10, (w - 1) as nat).push(digit_char(n % 10))
    }
}

/// `s` without its trailing zeros.
pub open spec fn trim_zeros(s: Seq<char>) -> Seq<char>
    decreases s.len(),
{
    if s.len() > 0 && s.last() == '0' {
        trim_zeros(s.drop_last())
    } else {
        s
    }
}

pub open spec fn date_text(d: Date) -> Seq<char> {
    fixed(d.year as nat, 4) + seq!['-'] + fixed(d.month as nat, 2) + seq!['-'] + fixed(
        d.day as nat,
        2,
    )
}

pub open spec fn time_text(t: Time) -> Seq<char> {
    fixed(t.hour as nat, 2) + seq![':'] + fixed(t.minute as nat, 2) + seq![':'] + fixed(
        t.second as nat,
        2,
    ) + if t.nanosecond == 0 {
        Seq::empty()
    } else {
        seq!['.'] + trim_zeros(fixed(t.nanosecond as nat, 9))
    }
}

pub open spec fn offset_text(o: Offset) -> Seq<char> {
    match o {
        Offset::Z => seq!['Z'],
        Offset::Custom { minutes } => {
            let a: int = if minutes < 0 {
                -minutes
            } else {
                minutes as int
            };
            (if minutes < 0 {
                seq!['-']
            } else {
                seq!['+']
            }) + fixed((a / 60) as nat, 2) + seq![':'] + fixed((a % 60) as nat, 2)
        },
    }
}

/// How a date-time is written: date, `T`, time, offset, each part only
/// when present.
pub open spec fn datetime_text(dt: Datetime) -> Seq<char> {
    (match dt.date {
        Some(d) => date_text(d),
        None => Seq::empty(),
    }) + (if dt.date is Some && dt.time is Some {
        seq!['T']
    } else {
        Seq::empty()
    }) + (match dt.time {
        Some(t) => time_text(t),
        None => Seq::empty(),
    }) + (match dt.offset {
        Some(o) => offset_text(o),
        None => Seq::empty(),
    })
}

fn push_fixed(buf: &mut String, n: u64, w: usize)
    ensures
        final(buf)@ == old(buf)@ + fixed(n as nat, w as nat),
    decreases w,
{
    if w > 0 {
        push_fixed(buf, n / 10, w - 1);
        push_char(buf, digit(n % 10));
    }
}

fn push_fraction(buf: &mut String, ns: u32)
    ensures
        final(buf)@ == old(buf)@ + trim_zeros(fixed(ns as nat, 9)),
{
    let mut digits = String::new();
    push_fixed(&mut digits, ns as u64, 9);
    let cs = crate::text::chars_of(digits.as_str());
    let mut e: usize = cs.len();
    assert(cs@.take(cs@.len() as int) =~= cs@);
    while e > 0 && cs[e - 1] == '0'
        invariant
            e <= cs@.len(),
            trim_zeros(cs@.take(e as int)) == trim_zeros(cs@),
            cs@ == fixed(ns as nat, 9),
        decreases e,
    {
        assert(cs@.take(e as int).drop_last() == cs@.take(e - 1));
        e = e - 1;
    }
    push_chars(buf, &cs, 0, e);
    assert(cs@.subrange(0, e as int) == cs@.take(e as int));
}

fn push_date(buf: &mut String, d: Date)
    ensures
        final(buf)@ == old(buf)@ + date_text(d),
{
    let ghost start = buf@;
    push_fixed(buf, d.year as u64, 4);
    push_char(buf, '-');
    push_fixed(buf, d.month as u64, 2);
    push_char(buf, '-');
    push_fixed(buf, d.day as u64, 2);
    assert(buf@ =~= start + date_text(d));
}

fn push_time(buf: &mut String, t: Time)
    ensures
        final(buf)@ == old(buf)@ + time_text(t),
{
    let ghost start = buf@;
    push_fixed(buf, t.hour as u64, 2);
    push_char(buf, ':');
    push_fixed(buf, t.minute as u64, 2);
    push_char(buf, ':');
    push_fixed(buf, t.second as u64, 2);
    if t.nanosecond != 0 {
        push_char(buf, '.');
        push_fraction(buf, t.nanosecond);
    }
    assert(buf@ =~= start + time_text(t));
}

fn push_offset(buf: &mut String, o: Offset)
    ensures
        final(buf)@ == old(buf)@ + offset_text(o),
{
    let ghost start = buf@;
    match o {
        Offset::Z => push_char(buf, 'Z'),
        Offset::Custom { minutes } => {
            let a: u64 = if minutes < 0 {
                push_char(buf, '-');
                (-(minutes as i32)) as u64
            } else {
                push_char(buf, '+');
                minutes as u64
            };
            push_fixed(buf, a / 60, 2);
            push_char(buf, ':');
            push_fixed(buf, a % 60, 2);
        },
    }
    assert(buf@ =~= start + offset_text(o));
}

impl Datetime {
    /// The date-time as written: date, `T`, time, offset, each part only
    /// when present.
    pub fn to_text(&self) -> (r: String)
        ensures
            r@ == datetime_text(*self),
    {
        let mut buf = String::new();
        match self.date {
            Some(d) => push_date(&mut buf, d),
            None => {},
        }
        if self.date.is_some() && self.time.is_some() {
            push_char(&mut buf, 'T');
        }
        match self.time {
            Some(t) => push_time(&mut buf, t),
            None => {},
        }
        match self.offset {
            Some(o) => push_offset(&mut buf, o),
            None => {},
        }
        assert(buf@ =~= datetime_text(*self));
        buf
    }
}

impl ValueRepr for Datetime {
    open spec fn canonical(&self) -> Seq<char> {
        datetime_text(*self)
    }

    fn to_repr(&self) -> (r: Repr) {
        Repr::new_unchecked(RawString::from_string(self.to_text()))
    }
}

proof fn lemma_digit_char(d: nat)
    requires
        d < 10,
    ensures
        dec_val(digit_char(d)) == d,
{
}

proof fn lemma_dec_num_same(s: Seq<char>, t: Seq<char>, p: int, q: int, w: nat)
    requires
        0 <= p,
        0 <= q,
        p + w <= s.len(),
        q + w <= t.len(),
        s.subrange(p, p + w) == t.subrange(q, q + w),
    ensures
        dec_num(s, p, w) == dec_num(t, q, w),
    decreases w,
{
    if w > 0 {
        assert(s.subrange(p, p + w - 1) =~= s.subrange(p, p + w).subrange(0, w - 1));
        assert(t.subrange(q, q + w - 1) =~= t.subrange(q, q + w).subrange(0, w - 1));
        lemma_dec_num_same(s, t, p, q, (w - 1) as nat);
        assert(s[p + w - 1] == s.subrange(p, p + w)[w - 1]);
        assert(t[q + w - 1] == t.subrange(q, q + w)[w - 1]);
    }
}

proof fn lemma_fixed(n: nat, w: nat)
    requires
        n < pow10(w),
    ensures
        fixed(n, w).len() == w,
        dec_num(fixed(n, w), 0, w) == n,
        forall|i: int| 0 <= i < w ==> dec_val(#[trigger] fixed(n, w)[i]) >= 0,
    decreases w,
{
    if w > 0 {
        let f = fixed(n, w);
        let g = fixed(n / 10, (w - 1) as nat);
        assert(n / 10 < pow10((w - 1) as nat)) by (nonlinear_arith)
            requires
                n < pow10(w),
                pow10(w) == 10 * pow10((w - 1) as nat),
        ;
        lemma_fixed(n / 10, (w - 1) as nat);
        lemma_digit_char(n % 10);
        assert(f.subrange(0, w - 1) =~= g.subrange(0, w - 1));
        lemma_dec_num_same(f, g, 0, 0, (w - 1) as nat);
        assert forall|i: int| 0 <= i < w implies dec_val(#[trigger] f[i]) >= 0 by {
            if i < w - 1 {
                assert(f[i] == g[i]);
            }
        }
        assert(f[w - 1] == digit_char(n % 10));
    } else {
        assert(n == 0);
    }
}

proof fn lemma_trim_zeros(s: Seq<char>)
    ensures
        trim_zeros(s) == s.take(trim_zeros(s).len() as int),
        trim_zeros(s).len() <= s.len(),
        forall|i: int| trim_zeros(s).len() <= i < s.len() ==> #[trigger] s[i] == '0',
        trim_zeros(s).len() > 0 ==> s[trim_zeros(s).len() - 1] != '0',
    decreases s.len(),
{
    if s.len() > 0 && s.last() == '0' {
        lemma_trim_zeros(s.drop_last());
        let k = trim_zeros(s).len();
        assert(s.drop_last().take(k as int) =~= s.take(k as int));
        assert forall|i: int| k <= i < s.len() implies #[trigger] s[i] == '0' by {
            if i < s.len() - 1 {
                assert(s.drop_last()[i] == s[i]);
            }
        }
    } else {
        assert(s.take(s.len() as int) =~= s);
    }
}

proof fn lemma_trailing_zeros(s: Seq<char>, k: nat, z: nat)
    requires
        k + z <= s.len(),
        forall|i: int| k <= i < k + z ==> #[trigger] s[i] == '0',
        dec_num(s, 0, k) >= 0,
    ensures
        dec_num(s, 0, k + z) == dec_num(s, 0, k) * pow10(z),
    decreases z,
{
    if z > 0 {
        lemma_trailing_zeros(s, k, (z - 1) as nat);
        assert(s[k + z - 1] == '0');
        let a = dec_num(s, 0, k);
        lemma_pow10_mono(0, (z - 1) as nat);
        assert(a * pow10((z - 1) as nat) * 10 == a * pow10(z)) by (nonlinear_arith)
            requires
                pow10(z) == 10 * pow10((z - 1) as nat),
        ;
        assert(a * pow10((z - 1) as nat) >= 0) by (nonlinear_arith)
            requires
                a >= 0,
                pow10((z - 1) as nat) >= 1,
        ;
    }
}

proof fn lemma_digits_end_at(s: Seq<char>, p: int, e: int)
    requires
        0 <= p <= e <= s.len(),
        forall|i: int| p <= i < e ==> dec_val(#[trigger] s[i]) >= 0,
        e == s.len() || dec_val(s[e]) < 0,
    ensures
        digits_end(s, p) == e,
    decreases e - p,
{
    if p < e {
        lemma_digits_end_at(s, p + 1, e);
    }
}

/// The fraction of a non-zero nanosecond count, as written: its digits and
/// their value.
proof fn lemma_fraction(ns: nat)
    requires
        0 < ns < 1_000_000_000,
    ensures
        ({
            let t = trim_zeros(fixed(ns, 9));
            &&& 1 <= t.len() <= 9
            &&& dec_num(t, 0, t.len()) * pow10((9 - t.len()) as nat) == ns
            &&& forall|i: int| 0 <= i < t.len() ==> dec_val(#[trigger] t[i]) >= 0
        }),
{
    reveal_with_fuel(pow10, 10);
    let f = fixed(ns, 9);
    lemma_fixed(ns, 9);
    lemma_trim_zeros(f);
    let t = trim_zeros(f);
    let k = t.len();
    assert forall|i: int| 0 <= i < 9 implies dec_val(#[trigger] f[i]) >= 0 by {
    }
    lemma_digits_end_at(f, 0, 9);
    lemma_digits_nonneg(f, 0, k);
    lemma_trailing_zeros(f, k, (9 - k) as nat);
    if k == 0 {
        assert(dec_num(f, 0, 0) == 0);
        assert(0 * pow10(9) == 0);
    }
    assert(t.subrange(0, k as int) =~= f.subrange(0, k as int));
    lemma_dec_num_same(t, f, 0, 0, k);
    assert forall|i: int| 0 <= i < k implies dec_val(#[trigger] t[i]) >= 0 by {
        assert(t[i] == f[i]);
    }
}

/// A date whose fields lie in their ranges (the day is not checked against
/// the month).
pub open spec fn date_valid(d: Date) -> bool {
    d.year <= 9999 && 1 <= d.month <= 12 && 1 <= d.day <= 31
}

/// A time whose fields lie in their ranges.
pub open spec fn time_valid(t: Time) -> bool {
    t.hour <= 23 && t.minute <= 59 && t.second <= 59 && t.nanosecond <= 999_999_999
}

/// An offset within a day of UTC.
pub open spec fn offset_valid(o: Offset) -> bool {
    match o {
        Offset::Z => true,
        Offset::Custom { minutes } => -1439 <= minutes <= 1439,
    }
}

/// One of the four variants, each part in range: date, time and offset;
/// date and time; date alone; time alone.
pub open spec fn datetime_valid(dt: Datetime) -> bool {
    match (dt.date, dt.time, dt.offset) {
        (Some(d), Some(t), Some(o)) => date_valid(d) && time_valid(t) && offset_valid(o),
        (Some(d), Some(t), None) => date_valid(d) && time_valid(t),
        (Some(d), None, None) => date_valid(d),
        (None, Some(t), None) => time_valid(t),
        _ => false,
    }
}

proof fn lemma_date_at(d: Date, rest: Seq<char>)
    requires
        date_valid(d),
    ensures
        date_text(d).len() == 10,
        date_at(date_text(d) + rest) == Some(d),
        dec_val(date_text(d)[2]) >= 0,
{
    reveal_with_fuel(pow10, 5);
    let s = date_text(d) + rest;
    let y = fixed(d.year as nat, 4);
    let m = fixed(d.month as nat, 2);
    let dd = fixed(d.day as nat, 2);
    lemma_fixed(d.year as nat, 4);
    lemma_fixed(d.month as nat, 2);
    lemma_fixed(d.day as nat, 2);
    assert(s.subrange(0, 4) =~= y.subrange(0, 4));
    assert(s.subrange(5, 7) =~= m.subrange(0, 2));
    assert(s.subrange(8, 10) =~= dd.subrange(0, 2));
    lemma_dec_num_same(s, y, 0, 0, 4);
    lemma_dec_num_same(s, m, 5, 0, 2);
    lemma_dec_num_same(s, dd, 8, 0, 2);
    assert(s[4] == '-');
    assert(s[7] == '-');
    assert(date_text(d)[2] == y[2]);
}

proof fn lemma_time_at(pre: Seq<char>, t: Time, rest: Seq<char>)
    requires
        time_valid(t),
        rest.len() == 0 || (rest[0] != '.' && dec_val(rest[0]) < 0),
    ensures
        time_at(pre + time_text(t) + rest, pre.len() as int) == Some(
            (t, (pre.len() + time_text(t).len()) as int),
        ),
        time_text(t).len() >= 8,
        time_text(t)[2] == ':',
{
    reveal_with_fuel(pow10, 3);
    let s = pre + time_text(t) + rest;
    let p = pre.len() as int;
    let h = fixed(t.hour as nat, 2);
    let mi = fixed(t.minute as nat, 2);
    let se = fixed(t.second as nat, 2);
    lemma_fixed(t.hour as nat, 2);
    lemma_fixed(t.minute as nat, 2);
    lemma_fixed(t.second as nat, 2);
    let base = h + seq![':'] + mi + seq![':'] + se;
    assert(s.subrange(p, p + 2) =~= h.subrange(0, 2));
    assert(s.subrange(p + 3, p + 5) =~= mi.subrange(0, 2));
    assert(s.subrange(p + 6, p + 8) =~= se.subrange(0, 2));
    lemma_dec_num_same(s, h, p, 0, 2);
    lemma_dec_num_same(s, mi, p + 3, 0, 2);
    lemma_dec_num_same(s, se, p + 6, 0, 2);
    assert(s[p + 2] == ':');
    assert(s[p + 5] == ':');
    let q = p + 8;
    if t.nanosecond == 0 {
        assert(time_text(t) =~= base);
        if q < s.len() {
            assert(s[q] == rest[0]);
        }
    } else {
        lemma_fraction(t.nanosecond as nat);
        let fr = trim_zeros(fixed(t.nanosecond as nat, 9));
        let k = fr.len() as int;
        assert(time_text(t) =~= base + seq!['.'] + fr);
        assert(s[q] == '.');
        assert forall|i: int| q + 1 <= i < q + 1 + k implies dec_val(#[trigger] s[i]) >= 0 by {
            assert(s[i] == fr[i - q - 1]);
        }
        if q + 1 + k < s.len() {
            assert(s[q + 1 + k] == rest[0]);
        }
        lemma_digits_end_at(s, q + 1, q + 1 + k);
        assert(s.subrange(q + 1, q + 1 + k) =~= fr.subrange(0, k));
        lemma_dec_num_same(s, fr, q + 1, 0, k as nat);
    }
}

proof fn lemma_offset_at(pre: Seq<char>, o: Offset)
    requires
        offset_valid(o),
    ensures
        offset_at(pre + offset_text(o), pre.len() as int) == Ok::<Option<Offset>, DatetimeParseError>(
            Some(o),
        ),
        offset_text(o).len() > 0,
        offset_text(o)[0] != '.',
        dec_val(offset_text(o)[0]) < 0,
{
    let s = pre + offset_text(o);
    let p = pre.len() as int;
    match o {
        Offset::Z => {
            assert(s[p] == 'Z');
        },
        Offset::Custom { minutes } => {
            reveal_with_fuel(pow10, 3);
            let a: int = if minutes < 0 {
                -minutes
            } else {
                minutes as int
            };
            let h = fixed((a / 60) as nat, 2);
            let m = fixed((a % 60) as nat, 2);
            lemma_fixed((a / 60) as nat, 2);
            lemma_fixed((a % 60) as nat, 2);
            let sign = if minutes < 0 {
                seq!['-']
            } else {
                seq!['+']
            };
            assert(offset_text(o) =~= sign + h + seq![':'] + m);
            assert(s.subrange(p + 1, p + 3) =~= h.subrange(0, 2));
            assert(s.subrange(p + 4, p + 6) =~= m.subrange(0, 2));
            lemma_dec_num_same(s, h, p + 1, 0, 2);
            lemma_dec_num_same(s, m, p + 4, 0, 2);
            assert(s[p] == sign[0]);
            assert(s[p + 3] == ':');
            assert((a / 60) * 60 + a % 60 == a);
        },
    }
}

/// Writing a date-time out and reading the text back gives the same
/// date-time, for each of the four variants with its fields in range.
pub proof fn lemma_datetime_round_trip(dt: Datetime)
    requires
        datetime_valid(dt),
    ensures
        parse_spec(datetime_text(dt)) == Ok::<Datetime, DatetimeParseError>(dt),
{
    let s = datetime_text(dt);
    let e = Seq::<char>::empty();
    match (dt.date, dt.time, dt.offset) {
        (Some(d), None, None) => {
            lemma_date_at(d, e);
            assert(s =~= date_text(d) + e);
        },
        (None, Some(t), None) => {
            lemma_time_at(e, t, e);
            assert(s =~= e + time_text(t) + e);
        },
        (Some(d), Some(t), _) => {
            let off = match dt.offset {
                Some(o) => offset_text(o),
                None => e,
            };
            let pre = date_text(d) + seq!['T'];
            assert(s =~= pre + time_text(t) + off);
            lemma_date_at(d, seq!['T'] + time_text(t) + off);
            assert(s =~= date_text(d) + (seq!['T'] + time_text(t) + off));
            match dt.offset {
                Some(o) => {
                    lemma_offset_at(pre + time_text(t), o);
                },
                None => {},
            }
            lemma_time_at(pre, t, off);
            assert(s[10] == 'T');
        },
        _ => {},
    }
}

} // verus!
