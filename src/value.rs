//! Canonical spellings of booleans, integers and strings.
use vstd::prelude::*;

use crate::raw_string::{RawString, RawView};
use crate::repr::{Repr, ValueRepr};
use crate::text::{push_char, push_str};

verus! {

/// The decimal digit for `d < 10`.
pub open spec fn digit_char(d: nat) -> char {
    if d < 10 {
        (d + 48) as char
    } else {
        '?'
    }
}

/// The decimal digits of `n`, without leading zeros ("0" for zero).
pub open spec fn decimal(n: nat) -> Seq<char>
    decreases n,
{
    if n < 10 {
        seq![digit_char(n)]
    } else {
        decimal(n / 10).push(digit_char(n % 10))
    }
}

/// The decimal spelling of a signed integer, with `-` when negative.
pub open spec fn int_text(n: int) -> Seq<char> {
    if n < 0 {
        seq!['-'] + decimal((-n) as nat)
    } else {
        decimal(n as nat)
    }
}

/// The four lower-case hexadecimal digits of `v < 0x10000`.
pub open spec fn hex4(v: nat) -> Seq<char> {
    seq![hex_digit(v / 4096 % 16), hex_digit(v / 256 % 16), hex_digit(v / 16 % 16), hex_digit(v % 16)]
}

/// The hexadecimal digit for `d < 16`, in upper case.
pub open spec fn hex_digit(d: nat) -> char {
    if d < 10 {
        (d + 48) as char
    } else if d < 16 {
        (d + 55) as char
    } else {
        '?'
    }
}

/// How one character is written inside a basic string.
pub open spec fn escaped_char(c: char) -> Seq<char> {
    if c == '"' {
        seq!['\\', '"']
    } else if c == '\\' {
        seq!['\\', '\\']
    } else if c == '\n' {
        seq!['\\', 'n']
    } else if c == '\t' {
        seq!['\\', 't']
    } else if c == '\r' {
        seq!['\\', 'r']
    } else if (c as u32) < 0x20 || c as u32 == 0x7f {
        seq!['\\', 'u'] + hex4(c as u32 as nat)
    } else {
        seq![c]
    }
}

/// The body of a basic string holding `s`.
pub open spec fn escaped(s: Seq<char>) -> Seq<char>
    decreases s.len(),
{
    if s.len() == 0 {
        Seq::empty()
    } else {
        escaped(s.drop_last()) + escaped_char(s.last())
    }
}

/// The canonical spelling of a string: a basic string.
pub open spec fn string_text(s: Seq<char>) -> Seq<char> {
    seq!['"'] + escaped(s) + seq!['"']
}

pub(crate) fn digit(d: u64) -> (c: char)
    requires
        d < 10,
    ensures
        c == digit_char(d as nat),
{
    ((d as u8) + 48u8) as char
}

fn hex(d: u32) -> (c: char)
    requires
        d < 16,
    ensures
        c == hex_digit(d as nat),
{
    if d < 10 {
        ((d as u8) + 48u8) as char
    } else {
        ((d as u8) + 55u8) as char
    }
}

/// Appends the decimal digits of `n`.
fn push_decimal(buf: &mut String, n: u64)
    ensures
        final(buf)@ == old(buf)@ + decimal(n as nat),
    decreases n,
{
    if n < 10 {
        push_char(buf, digit(n));
    } else {
        push_decimal(buf, n / 10);
        push_char(buf, digit(n % 10));
    }
}

/// Appends the basic-string escape of `c`.
fn push_escaped_char(buf: &mut String, c: char)
    ensures
        final(buf)@ == old(buf)@ + escaped_char(c),
{
    let v = c as u32;
    if c == '"' {
        push_char(buf, '\\');
        push_char(buf, '"');
    } else if c == '\\' {
        push_char(buf, '\\');
        push_char(buf, '\\');
    } else if c == '\n' {
        push_char(buf, '\\');
        push_char(buf, 'n');
    } else if c == '\t' {
        push_char(buf, '\\');
        push_char(buf, 't');
    } else if c == '\r' {
        push_char(buf, '\\');
        push_char(buf, 'r');
    } else if v < 0x20 || v == 0x7f {
        push_char(buf, '\\');
        push_char(buf, 'u');
        push_char(buf, hex(v / 4096 % 16));
        push_char(buf, hex(v / 256 % 16));
        push_char(buf, hex(v / 16 % 16));
        push_char(buf, hex(v % 16));
    } else {
        push_char(buf, c);
    }
    assert(final(buf)@ =~= old(buf)@ + escaped_char(c));
}

impl ValueRepr for bool {
    open spec fn canonical(&self) -> Seq<char> {
        if *self {
            seq!['t', 'r', 'u', 'e']
        } else {
            seq!['f', 'a', 'l', 's', 'e']
        }
    }

    fn to_repr(&self) -> (r: Repr) {
        let mut s = String::new();
        if *self {
            push_char(&mut s, 't');
            push_char(&mut s, 'r');
            push_char(&mut s, 'u');
            push_char(&mut s, 'e');
        } else {
            push_char(&mut s, 'f');
            push_char(&mut s, 'a');
            push_char(&mut s, 'l');
            push_char(&mut s, 's');
            push_char(&mut s, 'e');
        }
        assert(s@ =~= self.canonical());
        Repr::new_unchecked(RawString::from_string(s))
    }
}

impl ValueRepr for i64 {
    open spec fn canonical(&self) -> Seq<char> {
        int_text(*self as int)
    }

    fn to_repr(&self) -> (r: Repr) {
        let mut s = String::new();
        if *self < 0 {
            push_char(&mut s, '-');
            let m: u64 = (-(*self as i128)) as u64;
            push_decimal(&mut s, m);
        } else {
            push_decimal(&mut s, *self as u64);
        }
        assert(s@ =~= self.canonical());
        Repr::new_unchecked(RawString::from_string(s))
    }
}

impl ValueRepr for String {
    open spec fn canonical(&self) -> Seq<char> {
        string_text(self@)
    }

    fn to_repr(&self) -> (r: Repr) {
        let cs = crate::text::chars_of(self.as_str());
        let mut s = String::new();
        push_char(&mut s, '"');
        let mut i: usize = 0;
        while i < cs.len()
            invariant
                i <= cs@.len(),
                cs@ == self@,
                s@ == seq!['"'] + escaped(cs@.take(i as int)),
            decreases cs.len() - i,
        {
            push_escaped_char(&mut s, cs[i]);
            assert(cs@.take(i + 1).drop_last() == cs@.take(i as int));
            i = i + 1;
        }
        push_char(&mut s, '"');
        assert(cs@.take(cs@.len() as int) == cs@);
        assert(s@ =~= string_text(self@));
        Repr::new_unchecked(RawString::from_string(s))
    }
}

} // verus!
