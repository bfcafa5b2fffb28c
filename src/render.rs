//! Rendering a quote as one line of text.

use vstd::prelude::*;
use crate::ascii::{decimal_text, push_decimal};
use crate::quote::{Quote, QuoteView};

verus! {

/// The sequence `s` back to front.
pub open spec fn reversed<T>(s: Seq<T>) -> Seq<T> {
    Seq::new(s.len(), |i: int| s[s.len() - 1 - i])
}

/// One level as ` qty@price`.
pub open spec fn level_text(l: (u64, u64)) -> Seq<u8> {
    seq![32u8] + decimal_text(l.0 as nat) + seq![64u8] + decimal_text(l.1 as nat)
}

/// The levels of `l` in the given order, each as ` qty@price`.
pub open spec fn ladder_text(l: Seq<(u64, u64)>) -> Seq<u8>
    decreases l.len(),
{
    if l.len() == 0 {
        Seq::empty()
    } else {
        ladder_text(l.drop_last()) + level_text(l.last())
    }
}

/// The line of a quote: `HH:MM:SS.ffffff ISSUE_CODE`, then the bids from the
/// last level of the payload to the first, then the asks from the first to the
/// last, then a newline.
pub open spec fn line_text(q: QuoteView) -> Seq<u8> {
    q.accept_time.text() + seq![32u8] + q.issue_code + ladder_text(reversed(q.bids))
        + ladder_text(q.asks) + seq![10u8]
}

fn push_level(out: &mut Vec<u8>, l: (u64, u64))
    ensures
        final(out)@ == old(out)@ + level_text(l),
{
    out.push(32);
    push_decimal(out, l.0);
    out.push(64);
    push_decimal(out, l.1);
    assert(final(out)@ =~= old(out)@ + level_text(l));
}

/// Renders a quote as its line, newline included.
pub fn render_quote(q: &Quote) -> (r: Vec<u8>)
    ensures
        r@ == line_text(q@),
{
    let mut out: Vec<u8> = Vec::new();
    q.accept_time().push_text(&mut out);
    out.push(32);
    let code = q.issue_code();
    let mut i: usize = 0;
    while i < code.len()
        invariant
            i <= code@.len(),
            out@ == q@.accept_time.text() + seq![32u8] + code@.take(i as int),
        decreases code@.len() - i,
    {
        out.push(code[i]);
        assert(code@.take(i + 1) =~= code@.take(i as int).push(code@[i as int]));
        i += 1;
    }
    assert(code@.take(code@.len() as int) =~= code@);
    let ghost head = out@;
    let bids = q.bids();
    let n = bids.len();
    let mut k: usize = 0;
    while k < n
        invariant
            n == bids@.len(),
            k <= n,
            out@ == head + ladder_text(reversed(bids@).take(k as int)),
        decreases n - k,
    {
        push_level(&mut out, bids[n - 1 - k]);
        assert(reversed(bids@).take(k + 1).drop_last() =~= reversed(bids@).take(k as int));
        k += 1;
    }
    assert(reversed(bids@).take(n as int) =~= reversed(bids@));
    let ghost middle = out@;
    let asks = q.asks();
    let mut j: usize = 0;
    while j < asks.len()
        invariant
            j <= asks@.len(),
            out@ == middle + ladder_text(asks@.take(j as int)),
        decreases asks@.len() - j,
    {
        push_level(&mut out, asks[j]);
        assert(asks@.take(j + 1).drop_last() =~= asks@.take(j as int));
        j += 1;
    }
    assert(asks@.take(asks@.len() as int) =~= asks@);
    out.push(10);
    assert(out@ =~= line_text(q@));
    out
}

} // verus!
