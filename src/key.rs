//! Keys: parsing simple and dotted keys into nodes that keep their spelling
//! and surrounding whitespace.
use vstd::prelude::*;

use crate::grammar::{
    basic_scan, escape_at, hex_num, hex_val, is_basic_char, is_literal_char, is_scalar, is_unquoted_spec,
    is_ws, key_part_at, span_ordered, keys_after, lemma_hex_num_stays_negative, lemma_key_part_bounds, lemma_pow16_mono, parse_keys, pow16, scalar_char,
    simple_key_at, skip_literal, skip_unquoted, skip_ws, KeySpan,
};
use crate::raw_string::{RawString, RawView};
use crate::repr::{side_encoded, Decor, DecorView, Repr};
use crate::text::{chars_of, push_char, push_chars};

verus! {

/// A key was expected at `position` (a character position of the input).
#[derive(Debug, Clone, Copy, PartialEq, Eq, Structural)]
pub struct KeyError {
    pub position: usize,
}

/// Relies on `char::from_u32`: the character whose scalar value is `v`,
/// for exactly the Unicode scalar values.
#[verifier::external_body]
fn char_from_u32(v: u32) -> (r: Option<char>)
    ensures
        r is Some <==> is_scalar(v as int),
        is_scalar(v as int) ==> r == Some(scalar_char(v as int)),
{
    char::from_u32(v)
}

/// Whether `c` may appear in an unquoted key.
pub fn is_unquoted_char(c: char) -> (r: bool)
    ensures
        r == is_unquoted_spec(c),
{
    let v = c as u32;
    (0x41 <= v && v <= 0x5a) || (0x61 <= v && v <= 0x7a) || (0x30 <= v && v <= 0x39) || v == 0x2d
        || v == 0x5f
}

fn is_ws_char(c: char) -> (r: bool)
    ensures
        r == is_ws(c),
{
    c == ' ' || c == '\t'
}

fn is_literal(c: char) -> (r: bool)
    ensures
        r == is_literal_char(c),
{
    let v = c as u32;
    v == 0x09 || (0x20 <= v && v <= 0x26) || (0x28 <= v && v <= 0x7e) || v >= 0x80
}

fn is_basic(c: char) -> (r: bool)
    ensures
        r == is_basic_char(c),
{
    let v = c as u32;
    v == 0x09 || v == 0x20 || v == 0x21 || (0x23 <= v && v <= 0x5b) || (0x5d <= v && v <= 0x7e)
        || v >= 0x80
}

fn hex_value(c: char) -> (r: i32)
    ensures
        r as int == hex_val(c),
{
    let v = c as u32;
    if 0x30 <= v && v <= 0x39 {
        (v - 0x30) as i32
    } else if 0x41 <= v && v <= 0x46 {
        (v - 0x41 + 10) as i32
    } else if 0x61 <= v && v <= 0x66 {
        (v - 0x61 + 10) as i32
    } else {
        -1
    }
}

fn scan_ws(cs: &Vec<char>, pos: usize) -> (r: usize)
    requires
        pos <= cs@.len(),
    ensures
        r as int == skip_ws(cs@, pos as int),
        pos <= r <= cs@.len(),
{
    let mut i: usize = pos;
    while i < cs.len() && is_ws_char(cs[i])
        invariant
            pos <= i <= cs@.len(),
            skip_ws(cs@, i as int) == skip_ws(cs@, pos as int),
        decreases cs@.len() - i,
    {
        i = i + 1;
    }
    i
}

fn scan_unquoted(cs: &Vec<char>, pos: usize) -> (r: usize)
    requires
        pos <= cs@.len(),
    ensures
        r as int == skip_unquoted(cs@, pos as int),
        pos <= r <= cs@.len(),
{
    let mut i: usize = pos;
    while i < cs.len() && is_unquoted_char(cs[i])
        invariant
            pos <= i <= cs@.len(),
            skip_unquoted(cs@, i as int) == skip_unquoted(cs@, pos as int),
        decreases cs@.len() - i,
    {
        i = i + 1;
    }
    i
}

fn scan_literal(cs: &Vec<char>, pos: usize) -> (r: usize)
    requires
        pos <= cs@.len(),
    ensures
        r as int == skip_literal(cs@, pos as int),
        pos <= r <= cs@.len(),
{
    let mut i: usize = pos;
    while i < cs.len() && is_literal(cs[i])
        invariant
            pos <= i <= cs@.len(),
            skip_literal(cs@, i as int) == skip_literal(cs@, pos as int),
        decreases cs@.len() - i,
    {
        i = i + 1;
    }
    i
}

/// The number spelled by the `n` hexadecimal digits at `pos`.
fn scan_hex(cs: &Vec<char>, pos: usize, n: usize) -> (r: Option<u64>)
    requires
        n <= 8,
        pos <= cs@.len(),
    ensures
        match r {
            Some(v) => hex_num(cs@, pos as int, n as nat) == v as int,
            None => hex_num(cs@, pos as int, n as nat) < 0,
        },
{
    let mut acc: u64 = 0;
    let mut k: usize = 0;
    proof {
        lemma_pow16_mono(0, 8);
        reveal_with_fuel(pow16, 9);
    }
    while k < n
        invariant
            k <= n <= 8,
            pos <= cs@.len(),
            hex_num(cs@, pos as int, k as nat) == acc as int,
            0 <= acc < pow16(k as nat),
            pow16(8) == 0x1_0000_0000,
        decreases n - k,
    {
        proof {
            lemma_pow16_mono(k as nat, 8);
        }
        if pos >= cs.len() || k >= cs.len() - pos {
            proof {
                lemma_hex_num_stays_negative(cs@, pos as int, (k + 1) as nat, n as nat);
            }
            return None;
        }
        let d = hex_value(cs[pos + k]);
        if d < 0 {
            proof {
                lemma_hex_num_stays_negative(cs@, pos as int, (k + 1) as nat, n as nat);
            }
            return None;
        }
        proof {
            let p = pow16(k as nat);
            assert(acc * 16 + d < p * 16) by (nonlinear_arith)
                requires
                    acc < p,
                    0 <= d < 16,
            ;
        }
        acc = acc * 16 + d as u64;
        k = k + 1;
    }
    Some(acc)
}

/// The escape sequence whose backslash stands at `pos`.
fn scan_escape(cs: &Vec<char>, pos: usize) -> (r: Option<(usize, char)>)
    requires
        pos < cs@.len(),
    ensures
        match escape_at(cs@, pos as int) {
            Some((next, c)) => r == Some((next as usize, c)) && pos < next <= cs@.len(),
            None => r is None,
        },
{
    if pos >= cs.len() - 1 {
        return None;
    }
    let e = pos + 1;
    let c = cs[e];
    if c == 'b' {
        Some((e + 1, '\x08'))
    } else if c == 't' {
        Some((e + 1, '\t'))
    } else if c == 'n' {
        Some((e + 1, '\n'))
    } else if c == 'f' {
        Some((e + 1, '\x0c'))
    } else if c == 'r' {
        Some((e + 1, '\r'))
    } else if c == '"' {
        Some((e + 1, '"'))
    } else if c == '\\' {
        Some((e + 1, '\\'))
    } else if c == 'u' || c == 'U' {
        let n: usize = if c == 'u' {
            4
        } else {
            8
        };
        match scan_hex(cs, e + 1, n) {
            Some(v) => {
                if v > 0x10FFFF {
                    return None;
                }
                match char_from_u32(v as u32) {
                    Some(ch) => {
                        let ghost nn: nat = n as nat;
                        assert(hex_num(cs@, e + 1, nn) >= 0);
                        assert(e + 1 + nn - 1 < cs@.len());
                        Some((e + 1 + n, ch))
                    },
                    None => None,
                }
            },
            None => None,
        }
    } else {
        None
    }
}

/// The rest of a basic string from `pos`: the position after the closing
/// quote and the decoded text.
fn scan_basic(cs: &Vec<char>, pos: usize) -> (r: Option<(usize, String)>)
    requires
        pos <= cs@.len(),
    ensures
        match basic_scan(cs@, pos as int, Seq::empty()) {
            Some((end, v)) => r matches Some((e, t)) && e as int == end && t@ == v,
            None => r is None,
        },
{
    let mut out = String::new();
    let mut i: usize = pos;
    loop
        invariant
            pos <= i <= cs@.len(),
            basic_scan(cs@, i as int, out@) == basic_scan(cs@, pos as int, Seq::empty()),
        decreases cs@.len() - i,
    {
        if i >= cs.len() {
            return None;
        }
        let c = cs[i];
        if c == '"' {
            return Some((i + 1, out));
        } else if c == '\\' {
            match scan_escape(cs, i) {
                Some((next, e)) => {
                    push_char(&mut out, e);
                    i = next;
                },
                None => {
                    return None;
                },
            }
        } else if is_basic(c) {
            push_char(&mut out, c);
            i = i + 1;
        } else {
            return None;
        }
    }
}

/// A simple key at `pos`: the position after it and its value.
fn scan_simple_key(cs: &Vec<char>, pos: usize) -> (r: Option<(usize, String)>)
    requires
        pos <= cs@.len(),
    ensures
        match simple_key_at(cs@, pos as int) {
            Some((end, v)) => r matches Some((e, t)) && e as int == end && t@ == v,
            None => r is None,
        },
{
    if pos >= cs.len() {
        return None;
    }
    let c = cs[pos];
    if c == '"' {
        scan_basic(cs, pos + 1)
    } else if c == '\'' {
        let e = scan_literal(cs, pos + 1);
        if e < cs.len() && cs[e] == '\'' {
            let mut t = String::new();
            push_chars(&mut t, cs, pos + 1, e);
            Some((e + 1, t))
        } else {
            None
        }
    } else {
        let e = scan_unquoted(cs, pos);
        if e > pos {
            let mut t = String::new();
            push_chars(&mut t, cs, pos, e);
            Some((e, t))
        } else {
            None
        }
    }
}

/// Parses one simple key (a basic string, a literal string or an unquoted
/// key) at the start of `input`: the number of characters it takes up and
/// its value.
pub fn simple_key(input: &str) -> (r: Result<(usize, String), KeyError>)
    ensures
        match simple_key_at(input@, 0) {
            Some((end, v)) => r matches Ok((e, t)) && e as int == end && t@ == v,
            None => r == Err::<(usize, String), KeyError>(KeyError { position: 0 }),
        },
{
    let cs = chars_of(input);
    match scan_simple_key(&cs, 0) {
        Some(p) => Ok(p),
        None => Err(KeyError { position: 0 }),
    }
}

/// What a `Key` holds, as a mathematical value.
pub struct KeyView {
    pub key: Seq<char>,
    pub repr: Option<RawView>,
    pub decor: DecorView,
}

/// The node that a parsed key part becomes: its value, its spelling as a
/// span, and the whitespace around it as spans.
pub open spec fn span_view(k: KeySpan) -> KeyView {
    KeyView {
        key: k.value,
        repr: Some(RawView::Span(k.key_start as nat, k.key_end as nat)),
        decor: DecorView {
            prefix: Some(RawView::Span(k.start as nat, k.key_start as nat)),
            suffix: Some(RawView::Span(k.key_end as nat, k.end as nat)),
        },
    }
}

/// The canonical spelling of a key: bare when it is a non-empty run of
/// unquoted-key characters, else a basic string.
pub open spec fn key_canonical(key: Seq<char>) -> Seq<char> {
    if key.len() > 0 && (forall|i: int| 0 <= i < key.len() ==> is_unquoted_spec(#[trigger] key[i])) {
        key
    } else {
        crate::value::string_text(key)
    }
}

impl KeyView {
    /// Every span of the key lies within `input`.
    pub open spec fn fits(self, input: Seq<char>) -> bool {
        &&& self.decor.fits(input)
        &&& match self.repr {
            Some(r) => r.fits(input),
            None => true,
        }
    }

    /// The key as written: prefix, spelling, suffix, resolved against
    /// `input`; absent decoration is empty and an absent spelling is the
    /// canonical one.
    pub open spec fn text_in(self, input: Seq<char>) -> Seq<char> {
        side_encoded(self.decor.prefix, Some(input), Seq::empty()) + match self.repr {
            Some(r) => r.text_in(input),
            None => key_canonical(self.key),
        } + side_encoded(self.decor.suffix, Some(input), Seq::empty())
    }
}

/// A dotted key as written: the keys' texts joined by dots.
pub open spec fn dotted_text(keys: Seq<KeyView>, input: Seq<char>) -> Seq<char>
    decreases keys.len(),
{
    if keys.len() == 0 {
        Seq::empty()
    } else if keys.len() == 1 {
        keys[0].text_in(input)
    } else {
        dotted_text(keys.drop_last(), input) + seq!['.'] + keys.last().text_in(input)
    }
}

/// One key of a (possibly dotted) key, with its spelling and decoration.
#[derive(Debug, PartialEq, Eq, Hash)]
pub struct Key {
    key: String,
    repr: Option<Repr>,
    decor: Decor,
}

impl View for Key {
    type V = KeyView;

    closed spec fn view(&self) -> KeyView {
        KeyView {
            key: self.key@,
            repr: match self.repr {
                Some(r) => Some(r@),
                None => None,
            },
            decor: self.decor@,
        }
    }
}

impl Key {
    /// A key with the default spelling and decoration.
    pub fn new(key: String) -> (r: Key)
        ensures
            r@ == (KeyView { key: key@, repr: None, decor: DecorView { prefix: None, suffix: None } }),
    {
        Key { key, repr: None, decor: Decor::default() }
    }

    /// The key with `repr` as its spelling, unchecked; for the parser.
    pub(crate) fn with_repr_unchecked(self, repr: Repr) -> (r: Key)
        ensures
            r@ == (KeyView { repr: Some(repr@), ..self@ }),
    {
        Key { repr: Some(repr), ..self }
    }

    /// The key with `decor` as its decoration.
    pub fn with_decor(self, decor: Decor) -> (r: Key)
        ensures
            r@ == (KeyView { decor: decor@, ..self@ }),
    {
        Key { decor, ..self }
    }

    /// The key's value.
    pub fn get(&self) -> (r: &str)
        ensures
            r@ == self@.key,
    {
        self.key.as_str()
    }

    /// The stored spelling, if any.
    pub fn as_repr(&self) -> (r: Option<&Repr>)
        ensures
            match self@.repr {
                Some(v) => r is Some && r->0@ == v,
                None => r is None,
            },
    {
        self.repr.as_ref()
    }

    /// The decoration.
    pub fn decor(&self) -> (r: &Decor)
        ensures
            r@ == self@.decor,
    {
        &self.decor
    }

    /// The canonical spelling of the key.
    pub fn default_repr(&self) -> (r: Repr)
        ensures
            r@ == RawView::Owned(key_canonical(self@.key)),
    {
        let cs = chars_of(self.key.as_str());
        let mut bare = cs.len() > 0;
        let mut i: usize = 0;
        while i < cs.len()
            invariant
                i <= cs@.len(),
                cs@ == self@.key,
                bare == (cs@.len() > 0 && forall|j: int| 0 <= j < i ==> is_unquoted_spec(#[trigger] cs@[j])),
            decreases cs.len() - i,
        {
            if !is_unquoted_char(cs[i]) {
                bare = false;
            }
            i = i + 1;
        }
        if bare {
            let mut t = String::new();
            push_chars(&mut t, &cs, 0, cs.len());
            assert(cs@.subrange(0, cs@.len() as int) == cs@);
            Repr::new_unchecked(RawString::from_string(t))
        } else {
            crate::repr::ValueRepr::to_repr(&self.key)
        }
    }

    /// Copies every span of the key out of `input`.
    pub fn despan(&mut self, input: &str)
        requires
            old(self)@.fits(input@),
        ensures
            final(self)@ == (KeyView {
                key: old(self)@.key,
                repr: match old(self)@.repr {
                    Some(r) => Some(r.despanned(input@)),
                    None => None,
                },
                decor: old(self)@.decor.despanned(input@),
            }),
    {
        self.decor.despan(input);
        match &mut self.repr {
            Some(repr) => repr.despan(input),
            None => {},
        }
    }

    /// Appends the key as written to `buf`, resolving spans against `input`.
    pub fn encode(&self, buf: &mut String, input: &str)
        requires
            self@.fits(input@),
        ensures
            final(buf)@ == old(buf)@ + self@.text_in(input@),
    {
        proof {
            reveal_strlit("");
        }
        let ghost start = buf@;
        self.decor.prefix_encode(buf, Some(input), "");
        match &self.repr {
            Some(r) => r.encode(buf, input),
            None => {
                let d = self.default_repr();
                d.encode(buf, input);
            },
        }
        self.decor.suffix_encode(buf, Some(input), "");
        assert(buf@ =~= start + self@.text_in(input@));
    }
}


/// Whitespace, a simple key and whitespace at `pos`, as a `Key` whose
/// spelling and decoration are spans, and the position after it.
fn scan_key_part(cs: &Vec<char>, pos: usize) -> (r: Option<(Key, usize)>)
    requires
        pos <= cs@.len(),
    ensures
        match key_part_at(cs@, pos as int) {
            Some(k) => r matches Some((key, end)) && key@ == span_view(k) && end as int == k.end,
            None => r is None,
        },
{
    let a = scan_ws(cs, pos);
    match scan_simple_key(cs, a) {
        Some((b, value)) => {
            proof {
                lemma_key_part_bounds(cs@, pos as int);
            }
            let end = scan_ws(cs, b);
            let key = Key::new(value).with_repr_unchecked(
                Repr::new_unchecked(RawString::from_span(a, b)),
            ).with_decor(Decor::new(RawString::from_span(pos, a), RawString::from_span(b, end)));
            Some((key, end))
        },
        None => None,
    }
}

/// The nodes of a parsed dotted key.
pub open spec fn key_views(keys: Seq<Key>) -> Seq<KeyView> {
    keys.map_values(|k: Key| k@)
}

/// Parses a dotted key (one or more simple keys joined by dots, with
/// whitespace around each) starting at character position `start` of
/// `input`. Gives the keys and the position after the last, or the position
/// where a key was expected. A dot is taken only together with the key that
/// follows it.
pub fn parse_key(input: &str, start: usize) -> (r: Result<(Vec<Key>, usize), KeyError>)
    requires
        start <= input@.len(),
    ensures
        match parse_keys(input@, start as int) {
            Ok((ks, end)) => r matches Ok((keys, e)) && e as int == end && key_views(keys@)
                == ks.map_values(|k: KeySpan| span_view(k)),
            Err(p) => r == Err::<(Vec<Key>, usize), KeyError>(KeyError { position: p as usize }),
        },
{
    let cs = chars_of(input);
    let (first, mut pos) = match scan_key_part(&cs, start) {
        Some(p) => p,
        None => {
            let p = scan_ws(&cs, start);
            return Err(KeyError { position: p });
        },
    };
    proof {
        lemma_key_part_bounds(cs@, start as int);
    }
    let ghost mut acc: Seq<KeySpan> = seq![key_part_at(cs@, start as int)->0];
    let mut keys: Vec<Key> = Vec::new();
    keys.push(first);
    assert(key_views(keys@) =~= acc.map_values(|k: KeySpan| span_view(k)));
    loop
        invariant
            pos <= cs@.len(),
            cs@ == input@,
            keys_after(cs@, pos as int, acc) == parse_keys(cs@, start as int),
            key_views(keys@) == acc.map_values(|k: KeySpan| span_view(k)),
        decreases cs@.len() - pos,
    {
        if pos < cs.len() && cs[pos] == '.' {
            match scan_key_part(&cs, pos + 1) {
                Some((key, end)) => {
                    proof {
                        lemma_key_part_bounds(cs@, pos + 1);
                    }
                    let ghost k = key_part_at(cs@, pos + 1)->0;
                    let ghost old_keys = keys@;
                    let ghost old_acc = acc;
                    assert(key_views(old_keys).len() == old_keys.len());
                    assert(old_keys.len() == old_acc.len());
                    keys.push(key);
                    proof {
                        acc = acc.push(k);
                        assert(keys@ == old_keys.push(key));
                        assert(key@ == span_view(k));
                        assert forall|i: int| 0 <= i < old_keys.len() implies #[trigger] keys@[i]@
                            == span_view(acc[i]) by {
                            assert(key_views(old_keys)[i] == old_acc.map_values(
                                |k: KeySpan| span_view(k),
                            )[i]);
                        }
                    }
                    assert(key_views(keys@) =~= acc.map_values(|k: KeySpan| span_view(k)));
                    pos = end;
                },
                None => {
                    let p = scan_ws(&cs, pos + 1);
                    return Err(KeyError { position: p });
                },
            }
        } else {
            return Ok((keys, pos));
        }
    }
}

/// Appends a dotted key as written to `buf`: each key's text, joined by dots.
pub fn encode_keys(keys: &Vec<Key>, buf: &mut String, input: &str)
    requires
        forall|i: int| 0 <= i < keys@.len() ==> (#[trigger] keys@[i])@.fits(input@),
    ensures
        final(buf)@ == old(buf)@ + dotted_text(key_views(keys@), input@),
{
    let mut i: usize = 0;
    while i < keys.len()
        invariant
            i <= keys@.len(),
            forall|j: int| 0 <= j < keys@.len() ==> (#[trigger] keys@[j])@.fits(input@),
            buf@ == old(buf)@ + dotted_text(key_views(keys@.take(i as int)), input@),
        decreases keys.len() - i,
    {
        if i > 0 {
            push_char(buf, '.');
        }
        keys[i].encode(buf, input);
        proof {
            let vs = key_views(keys@.take(i + 1));
            assert(vs.drop_last() =~= key_views(keys@.take(i as int)));
            assert(vs.last() == keys@[i as int]@);
            if i == 0 {
                assert(key_views(keys@.take(0)).len() == 0);
            }
        }
        assert(buf@ =~= old(buf)@ + dotted_text(key_views(keys@.take(i + 1)), input@));
        i = i + 1;
    }
    assert(keys@.take(keys@.len() as int) =~= keys@);
}

/// The keys lie one after another from `start` to `end`, each in order
/// within `s`, with a dot between each two.
pub open spec fn chained(s: Seq<char>, ks: Seq<KeySpan>, start: int, end: int) -> bool {
    &&& ks.len() >= 1
    &&& ks[0].start == start
    &&& ks.last().end == end
    &&& forall|i: int| 0 <= i < ks.len() ==> span_ordered(s, #[trigger] ks[i]) && start <= ks[i].start
    &&& forall|i: int|
        0 <= i < ks.len() - 1 ==> #[trigger] ks[i + 1].start == ks[i].end + 1 && s[ks[i].end]
            == '.'
}

proof fn lemma_keys_after_chained(s: Seq<char>, pos: int, acc: Seq<KeySpan>, start: int)
    requires
        chained(s, acc, start, pos),
        keys_after(s, pos, acc) is Ok,
    ensures
        chained(s, (keys_after(s, pos, acc)->Ok_0).0, start, (keys_after(s, pos, acc)->Ok_0).1),
    decreases s.len() - pos,
{
    if 0 <= pos < s.len() && s[pos] == '.' {
        lemma_key_part_bounds(s, pos + 1);
        let k = key_part_at(s, pos + 1)->0;
        let next = acc.push(k);
        assert forall|i: int| 0 <= i < next.len() - 1 implies #[trigger] next[i + 1].start
            == next[i].end + 1 && s[next[i].end] == '.' by {
            if i < acc.len() - 1 {
                assert(next[i + 1] == acc[i + 1]);
            }
        }
        assert(span_ordered(s, acc[acc.len() - 1]));
        assert forall|i: int| 0 <= i < next.len() implies span_ordered(s, #[trigger] next[i]) && start <= next[i].start by {
            if i < acc.len() {
                assert(next[i] == acc[i]);
            }
        }
        lemma_keys_after_chained(s, k.end, next, start);
    }
}

proof fn lemma_chained_text(s: Seq<char>, ks: Seq<KeySpan>, start: int, end: int)
    requires
        chained(s, ks, start, end),
    ensures
        dotted_text(ks.map_values(|k: KeySpan| span_view(k)), s) == s.subrange(start, end),
    decreases ks.len(),
{
    let vs = ks.map_values(|k: KeySpan| span_view(k));
    let k = ks.last();
    assert(span_ordered(s, ks[ks.len() - 1]));
    assert(vs.last().text_in(s) =~= s.subrange(k.start, k.end));
    if ks.len() == 1 {
    } else {
        let front = ks.drop_last();
        let e = ks[ks.len() - 2].end;
        assert(ks[ks.len() - 2 + 1].start == ks[ks.len() - 2].end + 1);
        assert(span_ordered(s, ks[ks.len() - 2]));
        assert forall|i: int| 0 <= i < front.len() implies span_ordered(s, #[trigger] front[i]) && start <= front[i].start by {
            assert(front[i] == ks[i]);
        }
        assert forall|i: int| 0 <= i < front.len() - 1 implies #[trigger] front[i + 1].start
            == front[i].end + 1 && s[front[i].end] == '.' by {
            assert(front[i] == ks[i]);
            assert(front[i + 1] == ks[i + 1]);
        }
        lemma_chained_text(s, front, start, e);
        assert(vs.drop_last() =~= front.map_values(|k: KeySpan| span_view(k)));
        assert(s.subrange(start, end) =~= s.subrange(start, e) + seq!['.'] + s.subrange(
            e + 1,
            end,
        ));
    }
}

/// Writing out the keys of a parsed dotted key, with nothing edited, gives
/// back exactly the text they were parsed from.
pub proof fn lemma_key_round_trip(s: Seq<char>, start: int)
    requires
        0 <= start <= s.len(),
        parse_keys(s, start) is Ok,
    ensures
        dotted_text(
            (parse_keys(s, start)->Ok_0).0.map_values(|k: KeySpan| span_view(k)),
            s,
        ) == s.subrange(start, (parse_keys(s, start)->Ok_0).1),
{
    lemma_key_part_bounds(s, start);
    let k = key_part_at(s, start)->0;
    lemma_keys_after_chained(s, k.end, seq![k], start);
    let (ks, end) = parse_keys(s, start)->Ok_0;
    lemma_chained_text(s, ks, start, end);
}

} // verus!
