//! Character-level helpers between `str`/`String` and `Seq<char>`.
use vstd::prelude::*;
use vstd::std_specs::iter::IteratorSpec;

verus! {

broadcast use vstd::string::axiom_spec_iter;

/// Relies on `String::push`: appends one character at the end.
#[verifier::external_body]
pub(crate) fn push_char(buf: &mut String, c: char)
    ensures
        final(buf)@ == old(buf)@.push(c),
{
    buf.push(c)
}

/// The characters of `s`, in order.
pub fn chars_of(s: &str) -> (r: Vec<char>)
    ensures
        r@ == s@,
{
    let mut out: Vec<char> = Vec::new();
    for c in it: s.chars()
        invariant
            it.seq() == s@,
            out@ == s@.take(it.index() as int),
    {
        out.push(c);
        assert(out@ == s@.take(it.index() as int + 1));
    }
    assert(out@ == s@);
    out
}

/// Appends `s[start..end]` (character positions) to `buf`.
pub fn push_chars(buf: &mut String, s: &Vec<char>, start: usize, end: usize)
    requires
        start <= end <= s@.len(),
    ensures
        final(buf)@ == old(buf)@ + s@.subrange(start as int, end as int),
{
    let mut i: usize = start;
    while i < end
        invariant
            start <= i <= end <= s@.len(),
            buf@ == old(buf)@ + s@.subrange(start as int, i as int),
        decreases end - i,
    {
        push_char(buf, s[i]);
        assert(s@.subrange(start as int, i + 1) == s@.subrange(start as int, i as int).push(s@[i as int]));
        i = i + 1;
    }
}

/// Appends all of `s` to `buf`.
pub fn push_str(buf: &mut String, s: &str)
    ensures
        final(buf)@ == old(buf)@ + s@,
{
    let cs = chars_of(s);
    push_chars(buf, &cs, 0, cs.len());
    assert(cs@.subrange(0, cs@.len() as int) == cs@);
}

} // verus!
