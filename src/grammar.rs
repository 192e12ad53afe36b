//! The key grammar, as functions on character sequences.
//!
//! ```text
//! key          = simple-key *( dot-sep simple-key )
//! simple-key   = basic-string / literal-string / unquoted-key
//! unquoted-key = 1*( ALPHA / DIGIT / "-" / "_" )
//! dot-sep      = *ws "." *ws
//! ```
use vstd::prelude::*;

verus! {

/// Space or tab.
pub open spec fn is_ws(c: char) -> bool {
    c == ' ' || c == '\t'
}

/// A character allowed in an unquoted key: ASCII letters and digits, `-`, `_`.
pub open spec fn is_unquoted_spec(c: char) -> bool {
    let v = c as u32;
    (0x41 <= v <= 0x5a) || (0x61 <= v <= 0x7a) || (0x30 <= v <= 0x39) || v == 0x2d || v == 0x5f
}

/// A character that stands for itself inside a literal string.
pub open spec fn is_literal_char(c: char) -> bool {
    let v = c as u32;
    v == 0x09 || (0x20 <= v <= 0x26) || (0x28 <= v <= 0x7e) || v >= 0x80
}

/// A character that stands for itself inside a basic string.
pub open spec fn is_basic_char(c: char) -> bool {
    let v = c as u32;
    v == 0x09 || v == 0x20 || v == 0x21 || (0x23 <= v <= 0x5b) || (0x5d <= v <= 0x7e) || v >= 0x80
}

/// The first position at or after `pos` that is not whitespace.
pub open spec fn skip_ws(s: Seq<char>, pos: int) -> int
    decreases s.len() - pos,
{
    if 0 <= pos < s.len() && is_ws(s[pos]) {
        skip_ws(s, pos + 1)
    } else {
        pos
    }
}

/// The first position at or after `pos` that cannot continue an unquoted key.
pub open spec fn skip_unquoted(s: Seq<char>, pos: int) -> int
    decreases s.len() - pos,
{
    if 0 <= pos < s.len() && is_unquoted_spec(s[pos]) {
        skip_unquoted(s, pos + 1)
    } else {
        pos
    }
}

/// The first position at or after `pos` that cannot continue a literal string.
pub open spec fn skip_literal(s: Seq<char>, pos: int) -> int
    decreases s.len() - pos,
{
    if 0 <= pos < s.len() && is_literal_char(s[pos]) {
        skip_literal(s, pos + 1)
    } else {
        pos
    }
}

/// The value of a hexadecimal digit, or -1.
pub open spec fn hex_val(c: char) -> int {
    let v = c as u32;
    if 0x30 <= v <= 0x39 {
        v - 0x30
    } else if 0x41 <= v <= 0x46 {
        v - 0x41 + 10
    } else if 0x61 <= v <= 0x66 {
        v - 0x61 + 10
    } else {
        -1
    }
}

/// The number that the `n` hexadecimal digits at `pos` spell, or -1 when
/// one of them is missing or is no digit.
pub open spec fn hex_num(s: Seq<char>, pos: int, n: nat) -> int
    decreases n,
{
    if n == 0 {
        0
    } else {
        let h = hex_num(s, pos, (n - 1) as nat);
        let i = pos + n - 1;
        let d = if 0 <= i < s.len() {
            hex_val(s[i])
        } else {
            -1
        };
        if h < 0 || d < 0 {
            -1
        } else {
            h * 16 + d
        }
    }
}

/// A Unicode scalar value.
pub open spec fn is_scalar(v: int) -> bool {
    (0 <= v < 0xD800) || (0xE000 <= v < 0x110000)
}

/// The character with scalar value `v`.
pub open spec fn scalar_char(v: int) -> char {
    v as char
}

/// An escape sequence whose backslash stands at `pos`: the position after
/// it and the character it stands for.
pub open spec fn escape_at(s: Seq<char>, pos: int) -> Option<(int, char)> {
    let e = pos + 1;
    if !(0 <= e < s.len()) {
        None
    } else {
        let c = s[e];
        if c == 'b' {
            Some((e + 1, '\x08'))
        } else if c == 't' {
            Some((e + 1, '\t'))
        } else if c == 'n' {
            Some((e + 1, '\n'))
        } else if c == 'f' {
            Some((e + 1, '\x0c'))
        } else if c == 'r' {
            Some((e + 1, '\r'))
        } else if c == '"' {
            Some((e + 1, '"'))
        } else if c == '\\' {
            Some((e + 1, '\\'))
        } else if c == 'u' || c == 'U' {
            let n: nat = if c == 'u' { 4 } else { 8 };
            let v = hex_num(s, e + 1, n);
            if v >= 0 && is_scalar(v) {
                Some((e + 1 + n, scalar_char(v)))
            } else {
                None
            }
        } else {
            None
        }
    }
}

/// The rest of a basic string from `pos`, with `acc` decoded so far: the
/// position after the closing quote and the decoded text.
pub open spec fn basic_scan(s: Seq<char>, pos: int, acc: Seq<char>) -> Option<(int, Seq<char>)>
    decreases s.len() - pos,
{
    if !(0 <= pos < s.len()) {
        None
    } else if s[pos] == '"' {
        Some((pos + 1, acc))
    } else if s[pos] == '\\' {
        match escape_at(s, pos) {
            Some((next, c)) => if pos < next {
                basic_scan(s, next, acc.push(c))
            } else {
                None
            },
            None => None,
        }
    } else if is_basic_char(s[pos]) {
        basic_scan(s, pos + 1, acc.push(s[pos]))
    } else {
        None
    }
}

/// A simple key starting at `pos`: the position after it and its value.
pub open spec fn simple_key_at(s: Seq<char>, pos: int) -> Option<(int, Seq<char>)> {
    if !(0 <= pos < s.len()) {
        None
    } else if s[pos] == '"' {
        basic_scan(s, pos + 1, Seq::empty())
    } else if s[pos] == '\'' {
        let e = skip_literal(s, pos + 1);
        if e < s.len() && s[e] == '\'' {
            Some((e + 1, s.subrange(pos + 1, e)))
        } else {
            None
        }
    } else {
        let e = skip_unquoted(s, pos);
        if e > pos {
            Some((e, s.subrange(pos, e)))
        } else {
            None
        }
    }
}

/// Where one key of a dotted key lies: leading whitespace from `start`,
/// the key itself from `key_start` to `key_end`, trailing whitespace up to
/// `end`.
pub struct KeySpan {
    pub value: Seq<char>,
    pub start: int,
    pub key_start: int,
    pub key_end: int,
    pub end: int,
}

/// Whitespace, a simple key and whitespace, from `pos`.
pub open spec fn key_part_at(s: Seq<char>, pos: int) -> Option<KeySpan> {
    let a = skip_ws(s, pos);
    match simple_key_at(s, a) {
        Some((b, v)) => Some(
            KeySpan { value: v, start: pos, key_start: a, key_end: b, end: skip_ws(s, b) },
        ),
        None => None,
    }
}

/// The keys that follow `pos`, each after a dot, added to `acc`: the keys and
/// the position after the last, or the position where a key was expected.
pub open spec fn keys_after(s: Seq<char>, pos: int, acc: Seq<KeySpan>) -> Result<
    (Seq<KeySpan>, int),
    int,
>
    decreases s.len() - pos,
{
    if 0 <= pos < s.len() && s[pos] == '.' {
        match key_part_at(s, pos + 1) {
            Some(k) => if pos < k.end <= s.len() {
                keys_after(s, k.end, acc.push(k))
            } else {
                Err(pos + 1)
            },
            None => Err(skip_ws(s, pos + 1)),
        }
    } else {
        Ok((acc, pos))
    }
}

/// A dotted key from `pos`: its keys and the position after it, or the
/// position where a key was expected.
pub open spec fn parse_keys(s: Seq<char>, pos: int) -> Result<(Seq<KeySpan>, int), int> {
    match key_part_at(s, pos) {
        Some(k) => keys_after(s, k.end, seq![k]),
        None => Err(skip_ws(s, pos)),
    }
}

/// `16` to the power `k`.
pub open spec fn pow16(k: nat) -> int
    decreases k,
{
    if k == 0 {
        1
    } else {
        16 * pow16((k - 1) as nat)
    }
}

pub proof fn lemma_pow16_mono(k: nat, m: nat)
    requires
        k <= m,
    ensures
        1 <= pow16(k) <= pow16(m),
    decreases m,
{
    if m > k {
        lemma_pow16_mono(k, (m - 1) as nat);
    } else if k > 0 {
        lemma_pow16_mono((k - 1) as nat, (k - 1) as nat);
    }
}

pub proof fn lemma_skip_ws_bounds(s: Seq<char>, pos: int)
    requires
        0 <= pos <= s.len(),
    ensures
        pos <= skip_ws(s, pos) <= s.len(),
    decreases s.len() - pos,
{
    if pos < s.len() && is_ws(s[pos]) {
        lemma_skip_ws_bounds(s, pos + 1);
    }
}

pub proof fn lemma_skip_unquoted_bounds(s: Seq<char>, pos: int)
    requires
        0 <= pos <= s.len(),
    ensures
        pos <= skip_unquoted(s, pos) <= s.len(),
    decreases s.len() - pos,
{
    if pos < s.len() && is_unquoted_spec(s[pos]) {
        lemma_skip_unquoted_bounds(s, pos + 1);
    }
}

pub proof fn lemma_skip_literal_bounds(s: Seq<char>, pos: int)
    requires
        0 <= pos <= s.len(),
    ensures
        pos <= skip_literal(s, pos) <= s.len(),
    decreases s.len() - pos,
{
    if pos < s.len() && is_literal_char(s[pos]) {
        lemma_skip_literal_bounds(s, pos + 1);
    }
}

pub proof fn lemma_basic_scan_bounds(s: Seq<char>, pos: int, acc: Seq<char>)
    requires
        basic_scan(s, pos, acc) is Some,
    ensures
        pos < (basic_scan(s, pos, acc)->0).0 <= s.len(),
    decreases s.len() - pos,
{
    if s[pos] == '"' {
    } else if s[pos] == '\\' {
        let (next, c) = escape_at(s, pos)->0;
        lemma_basic_scan_bounds(s, next, acc.push(c));
    } else {
        lemma_basic_scan_bounds(s, pos + 1, acc.push(s[pos]));
    }
}

pub proof fn lemma_simple_key_bounds(s: Seq<char>, pos: int)
    requires
        simple_key_at(s, pos) is Some,
    ensures
        0 <= pos < (simple_key_at(s, pos)->0).0 <= s.len(),
{
    if s[pos] == '"' {
        lemma_basic_scan_bounds(s, pos + 1, Seq::empty());
    } else if s[pos] == '\'' {
        lemma_skip_literal_bounds(s, pos + 1);
    } else {
        lemma_skip_unquoted_bounds(s, pos);
    }
}

pub proof fn lemma_hex_num_stays_negative(s: Seq<char>, pos: int, k: nat, m: nat)
    requires
        k <= m,
        hex_num(s, pos, k) < 0,
    ensures
        hex_num(s, pos, m) < 0,
    decreases m,
{
    if m > k {
        lemma_hex_num_stays_negative(s, pos, k, (m - 1) as nat);
    }
}

/// The parts of a key lie in order within `s`.
pub open spec fn span_ordered(s: Seq<char>, k: KeySpan) -> bool {
    0 <= k.start <= k.key_start < k.key_end <= k.end <= s.len()
}

pub proof fn lemma_key_part_bounds(s: Seq<char>, pos: int)
    requires
        0 <= pos <= s.len(),
        key_part_at(s, pos) is Some,
    ensures
        span_ordered(s, key_part_at(s, pos)->0),
        key_part_at(s, pos)->0.start == pos,
{
    lemma_skip_ws_bounds(s, pos);
    let a = skip_ws(s, pos);
    lemma_simple_key_bounds(s, a);
    let b = (simple_key_at(s, a)->0).0;
    lemma_skip_ws_bounds(s, b);
}

} // verus!
