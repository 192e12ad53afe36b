//! A value together with its spelling and the whitespace and comments
//! around it.
use vstd::prelude::*;

use crate::raw_string::{RawString, RawView};
use crate::text::push_str;

verus! {

/// Maps an optional source to the mathematical text it holds.
pub open spec fn input_view(input: Option<&str>) -> Option<Seq<char>> {
    match input {
        Some(i) => Some(i@),
        None => None,
    }
}

/// A value that has a canonical TOML spelling.
pub trait ValueRepr {
    /// The canonical spelling of the value.
    spec fn canonical(&self) -> Seq<char>;

    /// The canonical spelling, as owned raw text.
    fn to_repr(&self) -> (r: Repr)
        ensures
            r@ == RawView::Owned(self.canonical()),
    ;
}

/// The literal spelling of one value.
#[derive(Debug, PartialEq, Eq, Hash)]
pub struct Repr {
    raw_value: RawString,
}

impl View for Repr {
    type V = RawView;

    closed spec fn view(&self) -> RawView {
        self.raw_value@
    }
}

impl Clone for Repr {
    fn clone(&self) -> (r: Repr)
        ensures
            r@ == self@,
    {
        Repr { raw_value: self.raw_value.clone() }
    }
}

impl Repr {
    /// Takes `raw` as the spelling without checking it against the grammar;
    /// reserved for the parser and for canonical formatters.
    pub(crate) fn new_unchecked(raw: RawString) -> (r: Repr)
        ensures
            r@ == raw@,
    {
        Repr { raw_value: raw }
    }

    /// The underlying raw text.
    pub fn as_raw(&self) -> (r: &RawString)
        ensures
            r@ == self@,
    {
        &self.raw_value
    }

    /// The character range within the source, while the spelling is a span.
    pub fn span(&self) -> (r: Option<(usize, usize)>)
        ensures
            match self@ {
                RawView::Span(start, end) => r == Some((start as usize, end as usize)),
                RawView::Owned(_) => r is None,
            },
    {
        self.raw_value.span()
    }

    /// Copies a span out of `input`.
    pub fn despan(&mut self, input: &str)
        requires
            old(self)@.fits(input@),
        ensures
            final(self)@ == old(self)@.despanned(input@),
    {
        self.raw_value.despan(input)
    }

    /// Appends the spelling to `buf`, resolving a span against `input`.
    pub fn encode(&self, buf: &mut String, input: &str)
        requires
            self@.fits(input@),
        ensures
            final(buf)@ == old(buf)@ + self@.text_in(input@),
    {
        self.as_raw().encode(buf, input)
    }
}

/// The two sides of a `Decor`; `None` stands for the caller's default.
pub struct DecorView {
    pub prefix: Option<RawView>,
    pub suffix: Option<RawView>,
}

/// How one side of a decoration is written: its text if present, resolved
/// against `input`, else `default`.
pub open spec fn side_encoded(
    side: Option<RawView>,
    input: Option<Seq<char>>,
    default: Seq<char>,
) -> Seq<char> {
    match side {
        Some(r) => r.encoded(input, default),
        None => default,
    }
}

/// A side's span, if any, lies within `input`.
pub open spec fn side_fits(side: Option<RawView>, input: Seq<char>) -> bool {
    match side {
        Some(r) => r.fits(input),
        None => true,
    }
}

/// A side with its span copied out of `input`.
pub open spec fn side_despanned(side: Option<RawView>, input: Seq<char>) -> Option<RawView> {
    match side {
        Some(r) => Some(r.despanned(input)),
        None => None,
    }
}

impl DecorView {
    pub open spec fn fits(self, input: Seq<char>) -> bool {
        side_fits(self.prefix, input) && side_fits(self.suffix, input)
    }

    pub open spec fn despanned(self, input: Seq<char>) -> DecorView {
        DecorView {
            prefix: side_despanned(self.prefix, input),
            suffix: side_despanned(self.suffix, input),
        }
    }
}

/// The whitespace, comments and newlines before and after a node.
#[derive(Debug, PartialEq, Eq, Hash)]
pub struct Decor {
    prefix: Option<RawString>,
    suffix: Option<RawString>,
}

impl View for Decor {
    type V = DecorView;

    closed spec fn view(&self) -> DecorView {
        DecorView {
            prefix: match self.prefix {
                Some(r) => Some(r@),
                None => None,
            },
            suffix: match self.suffix {
                Some(r) => Some(r@),
                None => None,
            },
        }
    }
}

fn clone_side(side: &Option<RawString>) -> (r: Option<RawString>)
    ensures
        match *side {
            Some(s) => r is Some && r->0@ == s@,
            None => r is None,
        },
{
    match side {
        Some(s) => Some(s.clone()),
        None => None,
    }
}

impl Clone for Decor {
    fn clone(&self) -> (r: Decor)
        ensures
            r@ == self@,
    {
        Decor { prefix: clone_side(&self.prefix), suffix: clone_side(&self.suffix) }
    }
}

impl Default for Decor {
    fn default() -> (r: Decor)
        ensures
            r@ == (DecorView { prefix: None, suffix: None }),
    {
        Decor { prefix: None, suffix: None }
    }
}

fn side_encode(side: &Option<RawString>, buf: &mut String, input: Option<&str>, default: &str)
    requires
        input matches Some(i) ==> side_fits(
            match *side {
                Some(r) => Some(r@),
                None => None,
            },
            i@,
        ),
    ensures
        final(buf)@ == old(buf)@ + side_encoded(
            match *side {
                Some(r) => Some(r@),
                None => None,
            },
            input_view(input),
            default@,
        ),
{
    match side {
        Some(s) => s.encode_with_default(buf, input, default),
        None => push_str(buf, default),
    }
}

fn side_despan(side: &mut Option<RawString>, input: &str)
    requires
        side_fits(
            match *old(side) {
                Some(r) => Some(r@),
                None => None,
            },
            input@,
        ),
    ensures
        match *final(side) {
            Some(r) => Some(r@),
            None => None,
        } == side_despanned(
            match *old(side) {
                Some(r) => Some(r@),
                None => None,
            },
            input@,
        ),
{
    match side {
        Some(s) => s.despan(input),
        None => {},
    }
}

impl Decor {
    /// A decoration with both sides given.
    pub fn new(prefix: RawString, suffix: RawString) -> (r: Decor)
        ensures
            r@ == (DecorView { prefix: Some(prefix@), suffix: Some(suffix@) }),
    {
        Decor { prefix: Some(prefix), suffix: Some(suffix) }
    }

    /// Goes back to the default on both sides.
    pub fn clear(&mut self)
        ensures
            final(self)@ == (DecorView { prefix: None, suffix: None }),
    {
        self.prefix = None;
        self.suffix = None;
    }

    /// The prefix, if one was set.
    pub fn prefix(&self) -> (r: Option<&RawString>)
        ensures
            match self@.prefix {
                Some(p) => r is Some && r->0@ == p,
                None => r is None,
            },
    {
        self.prefix.as_ref()
    }

    /// Appends the prefix to `buf`, or `default` where none was set.
    pub fn prefix_encode(&self, buf: &mut String, input: Option<&str>, default: &str)
        requires
            input matches Some(i) ==> side_fits(self@.prefix, i@),
        ensures
            final(buf)@ == old(buf)@ + side_encoded(self@.prefix, input_view(input), default@),
    {
        side_encode(&self.prefix, buf, input, default)
    }

    /// Sets the prefix.
    pub fn set_prefix(&mut self, prefix: RawString)
        ensures
            final(self)@ == (DecorView { prefix: Some(prefix@), suffix: old(self)@.suffix }),
    {
        self.prefix = Some(prefix);
    }

    /// The suffix, if one was set.
    pub fn suffix(&self) -> (r: Option<&RawString>)
        ensures
            match self@.suffix {
                Some(p) => r is Some && r->0@ == p,
                None => r is None,
            },
    {
        self.suffix.as_ref()
    }

    /// Appends the suffix to `buf`, or `default` where none was set.
    pub fn suffix_encode(&self, buf: &mut String, input: Option<&str>, default: &str)
        requires
            input matches Some(i) ==> side_fits(self@.suffix, i@),
        ensures
            final(buf)@ == old(buf)@ + side_encoded(self@.suffix, input_view(input), default@),
    {
        side_encode(&self.suffix, buf, input, default)
    }

    /// Sets the suffix.
    pub fn set_suffix(&mut self, suffix: RawString)
        ensures
            final(self)@ == (DecorView { prefix: old(self)@.prefix, suffix: Some(suffix@) }),
    {
        self.suffix = Some(suffix);
    }

    /// Copies the spans of both sides out of `input`.
    pub fn despan(&mut self, input: &str)
        requires
            old(self)@.fits(input@),
        ensures
            final(self)@ == old(self)@.despanned(input@),
    {
        side_despan(&mut self.prefix, input);
        side_despan(&mut self.suffix, input);
    }
}

/// The spelling of an optional `Repr`.
pub open spec fn repr_view(repr: Option<Repr>) -> Option<RawView> {
    match repr {
        Some(r) => Some(r@),
        None => None,
    }
}

/// What `display_repr` shows: owned spelling as it stands, else the
/// canonical spelling of `canonical`'s value.
pub open spec fn shown_text(repr: Option<RawView>, canonical: Seq<char>) -> Seq<char> {
    match repr {
        Some(RawView::Owned(t)) => t,
        _ => canonical,
    }
}

/// How a value's spelling is written: a stored spelling resolved against the
/// source when there is one, else what `shown_text` gives.
pub open spec fn repr_encoded(
    repr: Option<RawView>,
    canonical: Seq<char>,
    input: Option<Seq<char>>,
) -> Seq<char> {
    match (repr, input) {
        (Some(r), Some(i)) => r.text_in(i),
        _ => shown_text(repr, canonical),
    }
}

/// A value together with its spelling and its surrounding decoration.
#[derive(Debug, PartialEq, Eq, Hash)]
pub struct Formatted<T> {
    value: T,
    repr: Option<Repr>,
    decor: Decor,
}

impl<T: ValueRepr> Formatted<T> {
    /// The wrapped value.
    pub closed spec fn value_spec(&self) -> T {
        self.value
    }

    /// The stored spelling, if any.
    pub closed spec fn repr_spec(&self) -> Option<RawView> {
        repr_view(self.repr)
    }

    /// The decoration.
    pub closed spec fn decor_spec(&self) -> DecorView {
        self.decor@
    }

    /// The stored spelling and the decoration lie within `input`.
    pub open spec fn fits(&self, input: Seq<char>) -> bool {
        &&& self.decor_spec().fits(input)
        &&& match self.repr_spec() {
            Some(r) => r.fits(input),
            None => true,
        }
    }

    /// The whole node as written: prefix, spelling, suffix, with the two
    /// defaults standing in for absent sides.
    pub open spec fn encoded(
        &self,
        input: Option<Seq<char>>,
        default_prefix: Seq<char>,
        default_suffix: Seq<char>,
    ) -> Seq<char> {
        side_encoded(self.decor_spec().prefix, input, default_prefix) + repr_encoded(
            self.repr_spec(),
            self.value_spec().canonical(),
            input,
        ) + side_encoded(self.decor_spec().suffix, input, default_suffix)
    }

    /// A value with the default spelling and decoration.
    pub fn new(value: T) -> (r: Formatted<T>)
        ensures
            r.value_spec() == value,
            r.repr_spec() is None,
            r.decor_spec() == (DecorView { prefix: None, suffix: None }),
    {
        Formatted { value, repr: None, decor: Decor::default() }
    }

    /// Stores `repr` as the spelling without checking it; reserved for the
    /// parser, which hands over grammar-checked text.
    pub(crate) fn set_repr_unchecked(&mut self, repr: Repr)
        ensures
            final(self).value_spec() == old(self).value_spec(),
            final(self).repr_spec() == Some(repr@),
            final(self).decor_spec() == old(self).decor_spec(),
    {
        self.repr = Some(repr);
    }

    /// The wrapped value.
    pub fn value(&self) -> (r: &T)
        ensures
            *r == self.value_spec(),
    {
        &self.value
    }

    /// The wrapped value.
    pub fn into_value(self) -> (r: T)
        ensures
            r == self.value_spec(),
    {
        self.value
    }

    /// The stored spelling, if any.
    pub fn as_repr(&self) -> (r: Option<&Repr>)
        ensures
            match self.repr_spec() {
                Some(v) => r is Some && r->0@ == v,
                None => r is None,
            },
    {
        self.repr.as_ref()
    }

    /// The canonical spelling of the value.
    pub fn default_repr(&self) -> (r: Repr)
        ensures
            r@ == RawView::Owned(self.value_spec().canonical()),
    {
        self.value.to_repr()
    }

    /// The spelling to show: the stored one when it is owned text, else the
    /// canonical one; nothing is changed.
    pub fn display_repr(&self) -> (r: String)
        ensures
            r@ == shown_text(self.repr_spec(), self.value_spec().canonical()),
    {
        let mut out = String::new();
        match self.as_repr() {
            Some(repr) => match repr.as_raw().as_str() {
                Some(s) => {
                    push_str(&mut out, s);
                    return out;
                },
                None => {},
            },
            None => {},
        }
        let d = self.default_repr();
        match d.as_raw().as_str() {
            Some(s) => push_str(&mut out, s),
            None => {},
        }
        out
    }

    /// The character range of the spelling within the source, while it is a
    /// span.
    pub fn span(&self) -> (r: Option<(usize, usize)>)
        ensures
            match self.repr_spec() {
                Some(RawView::Span(start, end)) => r == Some((start as usize, end as usize)),
                _ => r is None,
            },
    {
        match &self.repr {
            Some(r) => r.span(),
            None => None,
        }
    }

    /// Copies every span of the spelling and decoration out of `input`.
    pub fn despan(&mut self, input: &str)
        requires
            old(self).fits(input@),
        ensures
            final(self).value_spec() == old(self).value_spec(),
            final(self).repr_spec() == match old(self).repr_spec() {
                Some(r) => Some(r.despanned(input@)),
                None => None,
            },
            final(self).decor_spec() == old(self).decor_spec().despanned(input@),
    {
        self.decor.despan(input);
        match &mut self.repr {
            Some(repr) => repr.despan(input),
            None => {},
        }
    }

    /// The decoration, for editing.
    pub fn decor_mut(&mut self) -> (r: &mut Decor)
        ensures
            r@ == old(self).decor_spec(),
            final(self).value_spec() == old(self).value_spec(),
            final(self).repr_spec() == old(self).repr_spec(),
            final(self).decor_spec() == final(r)@,
    {
        &mut self.decor
    }

    /// The decoration.
    pub fn decor(&self) -> (r: &Decor)
        ensures
            r@ == self.decor_spec(),
    {
        &self.decor
    }

    /// Replaces the stored spelling by the canonical one of the value.
    pub fn fmt(&mut self)
        ensures
            final(self).value_spec() == old(self).value_spec(),
            final(self).repr_spec() == Some(RawView::Owned(old(self).value_spec().canonical())),
            final(self).decor_spec() == old(self).decor_spec(),
    {
        self.repr = Some(self.value.to_repr());
    }

    /// Appends the node to `buf`: prefix, spelling, suffix. Spans are
    /// resolved against `input` when it is given; an absent side of the
    /// decoration is written as the matching default.
    pub fn encode(
        &self,
        buf: &mut String,
        input: Option<&str>,
        default_prefix: &str,
        default_suffix: &str,
    )
        requires
            input matches Some(i) ==> self.fits(i@),
        ensures
            final(buf)@ == old(buf)@ + self.encoded(
                input_view(input),
                default_prefix@,
                default_suffix@,
            ),
    {
        self.decor.prefix_encode(buf, input, default_prefix);
        match (&self.repr, input) {
            (Some(r), Some(i)) => r.encode(buf, i),
            _ => {
                let shown = self.display_repr();
                push_str(buf, shown.as_str());
            },
        }
        self.decor.suffix_encode(buf, input, default_suffix);
    }
}

/// An absent side of a decoration is written as the caller's default; a side
/// set to the empty text writes nothing, which differs from absent whenever
/// the default is not empty.
pub proof fn lemma_decor_fallback<T: ValueRepr>(
    f: Formatted<T>,
    input: Option<Seq<char>>,
    default_prefix: Seq<char>,
    default_suffix: Seq<char>,
)
    ensures
        ({
            let body = repr_encoded(f.repr_spec(), f.value_spec().canonical(), input);
            let suffix = side_encoded(f.decor_spec().suffix, input, default_suffix);
            &&& f.decor_spec().prefix is None ==> f.encoded(input, default_prefix, default_suffix)
                == default_prefix + body + suffix
            &&& f.decor_spec().prefix == Some(RawView::Owned(Seq::empty())) ==> f.encoded(
                input,
                default_prefix,
                default_suffix,
            ) == body + suffix
        }),
        ({
            let prefix = side_encoded(f.decor_spec().prefix, input, default_prefix);
            let body = repr_encoded(f.repr_spec(), f.value_spec().canonical(), input);
            &&& f.decor_spec().suffix is None ==> f.encoded(input, default_prefix, default_suffix)
                == prefix + body + default_suffix
            &&& f.decor_spec().suffix == Some(RawView::Owned(Seq::empty())) ==> f.encoded(
                input,
                default_prefix,
                default_suffix,
            ) == prefix + body
        }),
        side_encoded(None, input, default_prefix) != side_encoded(
            Some(RawView::Owned(Seq::empty())),
            input,
            default_prefix,
        ) <==> default_prefix.len() > 0,
{
    let body = repr_encoded(f.repr_spec(), f.value_spec().canonical(), input);
    let prefix = side_encoded(f.decor_spec().prefix, input, default_prefix);
    let suffix = side_encoded(f.decor_spec().suffix, input, default_suffix);
    assert(Seq::<char>::empty() + body + suffix =~= body + suffix);
    assert(prefix + body + Seq::<char>::empty() =~= prefix + body);
    if default_prefix.len() == 0 {
        assert(default_prefix =~= Seq::<char>::empty());
    }
}

/// After `fmt`, the spelling shown is the canonical spelling of the value,
/// whatever was stored before.
pub proof fn lemma_fmt_shows_canonical<T: ValueRepr>(before: Formatted<T>, after: Formatted<T>)
    requires
        after.value_spec() == before.value_spec(),
        after.repr_spec() == Some(RawView::Owned(before.value_spec().canonical())),
    ensures
        shown_text(after.repr_spec(), after.value_spec().canonical())
            == before.value_spec().canonical(),
{
}

/// Copying the spans of a value's spelling and decoration out of the source
/// twice leaves what copying them once leaves.
pub proof fn lemma_formatted_despan_idempotent(
    repr: Option<RawView>,
    decor: DecorView,
    input: Seq<char>,
)
    ensures
        decor.despanned(input).despanned(input) == decor.despanned(input),
        match repr {
            Some(r) => r.despanned(input).despanned(input) == r.despanned(input),
            None => true,
        },
{
}

} // verus!
