//! Raw text recovered from a document: a character range of the source that
//! is resolved on demand, or text owned outright.
use vstd::prelude::*;

use crate::text::{chars_of, push_chars, push_str};

verus! {

/// What a `RawString` holds, as a mathematical value.
pub enum RawView {
    /// Characters `start..end` of the source the value was parsed from.
    Span(nat, nat),
    /// Text independent of any source.
    Owned(Seq<char>),
}

impl RawView {
    /// The range (if any) lies within `input`.
    pub open spec fn fits(self, input: Seq<char>) -> bool {
        match self {
            RawView::Span(start, end) => start <= end <= input.len(),
            RawView::Owned(_) => true,
        }
    }

    /// The text this value stands for, resolving a span against `input`.
    pub open spec fn text_in(self, input: Seq<char>) -> Seq<char> {
        match self {
            RawView::Span(start, end) => input.subrange(start as int, end as int),
            RawView::Owned(t) => t,
        }
    }

    /// The value after its span, if any, was copied out of `input`.
    pub open spec fn despanned(self, input: Seq<char>) -> RawView {
        RawView::Owned(self.text_in(input))
    }

    /// How this text is written out: a span is resolved against `input`
    /// when one is given, else `default` stands in for it.
    pub open spec fn encoded(self, input: Option<Seq<char>>, default: Seq<char>) -> Seq<char> {
        match self {
            RawView::Owned(t) => t,
            RawView::Span(_, _) => match input {
                Some(i) => self.text_in(i),
                None => default,
            },
        }
    }
}

#[derive(Debug, PartialEq, Eq, Hash)]
enum RawInner {
    Span { start: usize, end: usize },
    Owned(String),
}

/// A piece of text, either a span of the parsed source or owned text.
#[derive(Debug, PartialEq, Eq, Hash)]
pub struct RawString {
    inner: RawInner,
}

impl View for RawString {
    type V = RawView;

    closed spec fn view(&self) -> RawView {
        match self.inner {
            RawInner::Span { start, end } => RawView::Span(start as nat, end as nat),
            RawInner::Owned(s) => RawView::Owned(s@),
        }
    }
}

impl Clone for RawString {
    fn clone(&self) -> (r: RawString)
        ensures
            r@ == self@,
    {
        match &self.inner {
            RawInner::Span { start, end } => RawString::from_span(*start, *end),
            RawInner::Owned(s) => RawString::from_string(s.clone()),
        }
    }
}

impl RawString {
    /// Owned text, a copy of `s`.
    pub fn new(s: &str) -> (r: RawString)
        ensures
            r@ == RawView::Owned(s@),
    {
        let mut t = String::new();
        push_str(&mut t, s);
        RawString { inner: RawInner::Owned(t) }
    }

    /// Owned text, taking `s`.
    pub fn from_string(s: String) -> (r: RawString)
        ensures
            r@ == RawView::Owned(s@),
    {
        RawString { inner: RawInner::Owned(s) }
    }

    /// A span of the source; only the parser makes these.
    pub(crate) fn from_span(start: usize, end: usize) -> (r: RawString)
        ensures
            r@ == RawView::Span(start as nat, end as nat),
    {
        RawString { inner: RawInner::Span { start, end } }
    }

    /// The text, when it is owned; a span has no text of its own.
    pub fn as_str(&self) -> (r: Option<&str>)
        ensures
            match self@ {
                RawView::Owned(t) => r is Some && r->0@ == t,
                RawView::Span(_, _) => r is None,
            },
    {
        match &self.inner {
            RawInner::Span { .. } => None,
            RawInner::Owned(s) => Some(s.as_str()),
        }
    }

    /// The character range within the source, while the text is a span.
    pub fn span(&self) -> (r: Option<(usize, usize)>)
        ensures
            match self@ {
                RawView::Span(start, end) => r == Some((start as usize, end as usize)),
                RawView::Owned(_) => r is None,
            },
    {
        match &self.inner {
            RawInner::Span { start, end } => Some((*start, *end)),
            RawInner::Owned(_) => None,
        }
    }

    /// Copies a span out of `input`, after which the source may go away.
    pub fn despan(&mut self, input: &str)
        requires
            old(self)@.fits(input@),
        ensures
            final(self)@ == old(self)@.despanned(input@),
    {
        match &self.inner {
            RawInner::Span { start, end } => {
                let cs = chars_of(input);
                let mut t = String::new();
                push_chars(&mut t, &cs, *start, *end);
                self.inner = RawInner::Owned(t);
            },
            RawInner::Owned(_) => {},
        }
    }

    /// Appends the text to `buf`, resolving a span against `input`.
    pub fn encode(&self, buf: &mut String, input: &str)
        requires
            self@.fits(input@),
        ensures
            final(buf)@ == old(buf)@ + self@.text_in(input@),
    {
        match &self.inner {
            RawInner::Span { start, end } => {
                let cs = chars_of(input);
                push_chars(buf, &cs, *start, *end);
            },
            RawInner::Owned(s) => push_str(buf, s.as_str()),
        }
    }

    /// Appends the text to `buf`; a span with no source to resolve it
    /// against is written as `default`.
    pub fn encode_with_default(&self, buf: &mut String, input: Option<&str>, default: &str)
        requires
            input matches Some(i) ==> self@.fits(i@),
        ensures
            final(buf)@ == old(buf)@ + self@.encoded(
                match input {
                    Some(i) => Some(i@),
                    None => None,
                },
                default@,
            ),
    {
        match input {
            Some(i) => self.encode(buf, i),
            None => match &self.inner {
                RawInner::Span { .. } => push_str(buf, default),
                RawInner::Owned(s) => push_str(buf, s.as_str()),
            },
        }
    }
}

/// Copying a span out twice gives what copying it once gives.
pub proof fn lemma_despan_idempotent(r: RawView, input: Seq<char>)
    ensures
        r.despanned(input).despanned(input) == r.despanned(input),
{
}

} // verus!
