//! Inline spans: the units of text inside a heading, paragraph or list item.
use vstd::prelude::*;
use crate::text::{chars_of, string_of};

verus! {

/// A run of plain inline text, rendered as it stands.
#[derive(Debug, Clone)]
pub struct Span {
    pub text: String,
}

impl View for Span {
    type V = Seq<char>;

    open spec fn view(&self) -> Seq<char> {
        self.text@
    }
}

impl Span {
    pub fn tohtml(&self) -> (r: String)
        ensures
            r@ == self@,
    {
        self.text.clone()
    }
}

/// The texts of a sequence of spans.
pub open spec fn spans_view(v: Seq<Span>) -> Seq<Seq<char>> {
    v.map_values(|s: Span| s@)
}

/// The spans that a piece of text yields: one plain span, none for empty text.
pub open spec fn inline_model(t: Seq<char>) -> Seq<Seq<char>> {
    if t.len() == 0 {
        seq![]
    } else {
        seq![t]
    }
}

/// The concatenated HTML of a sequence of spans.
pub open spec fn spans_html(s: Seq<Seq<char>>) -> Seq<char>
    decreases s.len(),
{
    if s.len() == 0 {
        seq![]
    } else {
        spans_html(s.drop_last()) + s.last()
    }
}

pub(crate) fn spans_of(t: &Vec<char>) -> (r: Vec<Span>)
    ensures
        spans_view(r@) == inline_model(t@),
{
    let mut r: Vec<Span> = Vec::new();
    if t.len() > 0 {
        r.push(Span { text: string_of(t) });
    }
    proof {
        assert(spans_view(r@) =~= inline_model(t@));
    }
    r
}

pub fn parse_inline(text: &String) -> (r: Vec<Span>)
    ensures
        spans_view(r@) == inline_model(text@),
{
    spans_of(&chars_of(text.as_str()))
}

/// Appends the HTML of each span, in order.
pub(crate) fn push_spans_html(out: &mut String, spans: &Vec<Span>)
    ensures
        final(out)@ == old(out)@ + spans_html(spans_view(spans@)),
{
    let ghost o = out@;
    let mut k: usize = 0;
    while k < spans.len()
        invariant
            k <= spans.len(),
            out@ == o + spans_html(spans_view(spans@.take(k as int))),
        decreases spans.len() - k,
    {
        let h = spans[k].tohtml();
        out.append(h.as_str());
        proof {
            let t = spans_view(spans@.take(k + 1));
            assert(t.drop_last() =~= spans_view(spans@.take(k as int)));
            assert(out@ =~= o + spans_html(t));
        }
        k = k + 1;
    }
    proof {
        assert(spans@.take(k as int) =~= spans@);
    }
}

} // verus!
