//! Collecting the quotes of a whole capture, and putting them in order.

use vstd::prelude::*;
use crate::locate::contains;
use crate::quote::{DecodeError, Quote, QuoteView, marker, packet_spec, parse_packet};

verus! {

/// The contents of a sequence of quotes.
pub open spec fn views(s: Seq<Quote>) -> Seq<QuoteView> {
    s.map_values(|q: Quote| q@)
}

/// The sort key of a quote: its accept time in microseconds since midnight.
pub open spec fn time_key(q: QuoteView) -> nat {
    q.accept_time.micros_spec()
}

/// Holds of the quotes accepted at time `k`.
pub open spec fn at_time(k: nat) -> spec_fn(QuoteView) -> bool {
    |q: QuoteView| time_key(q) == k
}

/// The quotes are in ascending order of accept time.
pub open spec fn sorted_by_time(s: Seq<QuoteView>) -> bool {
    forall|i: int, j: int| 0 <= i < j < s.len() ==> time_key(s[i]) <= time_key(s[j])
}

/// `out` is `inp` sorted by accept time, and quotes accepted at the same time
/// keep the order they had in `inp`.
pub open spec fn stable_sort_of(out: Seq<QuoteView>, inp: Seq<QuoteView>) -> bool {
    &&& sorted_by_time(out)
    &&& forall|k: nat| #[trigger] out.filter(at_time(k)) == inp.filter(at_time(k))
}

/// How the collected quotes are ordered.
#[derive(Clone, Copy, Debug, PartialEq, Eq, Structural)]
pub enum OrderPolicy {
    /// In the order in which their frames were read.
    Arrival,
    /// By accept time, ties kept in arrival order.
    AcceptTime,
}

proof fn lemma_filter_none(s: Seq<QuoteView>, p: spec_fn(QuoteView) -> bool)
    requires
        forall|j: int| 0 <= j < s.len() ==> !p(#[trigger] s[j]),
    ensures
        s.filter(p) == Seq::<QuoteView>::empty(),
    decreases s.len(),
{
    reveal(Seq::filter);
    if s.len() > 0 {
        assert forall|j: int| 0 <= j < s.drop_last().len() implies !p(
            #[trigger] s.drop_last()[j],
        ) by {
            assert(s.drop_last()[j] == s[j]);
        }
        lemma_filter_none(s.drop_last(), p);
        assert(!p(s[s.len() - 1]));
    }
}

proof fn lemma_insert_filter(s: Seq<QuoteView>, pos: int, x: QuoteView, k: nat)
    requires
        0 <= pos <= s.len(),
        forall|j: int| pos <= j < s.len() ==> time_key(#[trigger] s[j]) > time_key(x),
    ensures
        s.insert(pos, x).filter(at_time(k)) == s.filter(at_time(k)) + (if time_key(x) == k {
            seq![x]
        } else {
            Seq::<QuoteView>::empty()
        }),
{
    let p = at_time(k);
    let a = s.take(pos);
    let b = s.skip(pos);
    assert(s.insert(pos, x) =~= a + (seq![x] + b));
    assert(s =~= a + b);
    Seq::filter_distributes_over_add(a, seq![x] + b, p);
    Seq::filter_distributes_over_add(a, b, p);
    b.lemma_filter_prepend(x, p);
    if time_key(x) == k {
        lemma_filter_none(b, p);
        assert(a.filter(p) + (seq![x] + Seq::<QuoteView>::empty()) =~= a.filter(p) + b.filter(p)
            + seq![x]);
    } else {
        assert(a.filter(p) + (Seq::<QuoteView>::empty() + b.filter(p)) =~= a.filter(p) + b.filter(
            p,
        ) + Seq::<QuoteView>::empty());
    }
}

proof fn lemma_push_filter(s: Seq<QuoteView>, x: QuoteView, k: nat)
    ensures
        s.push(x).filter(at_time(k)) == s.filter(at_time(k)) + (if time_key(x) == k {
            seq![x]
        } else {
            Seq::<QuoteView>::empty()
        }),
{
    reveal(Seq::filter);
    assert(s.push(x).drop_last() =~= s);
    assert(s.push(x).last() == x);
    assert(at_time(k)(x) == (time_key(x) == k));
    if time_key(x) != k {
        assert(s.filter(at_time(k)) + Seq::<QuoteView>::empty() =~= s.filter(at_time(k)));
    } else {
        assert(s.filter(at_time(k)).push(x) =~= s.filter(at_time(k)) + seq![x]);
    }
}

/// Sorts quotes by accept time; quotes accepted at the same time keep their
/// relative order.
pub fn sort_by_accept_time(quotes: Vec<Quote>) -> (r: Vec<Quote>)
    requires
        forall|i: int| 0 <= i < quotes@.len() ==> (#[trigger] quotes@[i])@.wf(),
    ensures
        stable_sort_of(views(r@), views(quotes@)),
        forall|i: int| 0 <= i < r@.len() ==> (#[trigger] r@[i])@.wf(),
{
    let ghost orig = views(quotes@);
    let mut input = quotes;
    let mut out: Vec<Quote> = Vec::new();
    let n = input.len();
    let mut i: usize = 0;
    while i < n
        invariant
            n == orig.len(),
            i <= n,
            views(input@) == orig.skip(i as int),
            forall|j: int| 0 <= j < orig.len() ==> (#[trigger] orig[j]).wf(),
            sorted_by_time(views(out@)),
            forall|j: int| 0 <= j < out@.len() ==> (#[trigger] out@[j])@.wf(),
            forall|k: nat| #[trigger]
                views(out@).filter(at_time(k)) == orig.take(i as int).filter(at_time(k)),
        decreases n - i,
    {
        assert(views(input@).len() == input@.len());
        assert(views(input@)[0] == orig[i as int]);
        let ghost before = views(out@);
        let ghost old_input = input@;
        let q = input.remove(0);
        assert forall|j: int| 0 <= j < input@.len() implies views(input@)[j] == orig.skip(i + 1)[j] by {
            assert(input@[j] == old_input[j + 1]);
            assert(views(old_input)[j + 1] == orig.skip(i as int)[j + 1]);
        }
        assert(views(input@) =~= orig.skip(i + 1));
        let key = q.accept_time().micros_of_day();
        let mut pos: usize = 0;
        while pos < out.len()
            invariant
                pos <= out@.len(),
                before == views(out@),
                forall|j: int| 0 <= j < out@.len() ==> (#[trigger] out@[j])@.wf(),
                forall|j: int| 0 <= j < pos ==> time_key(#[trigger] before[j]) <= key,
            ensures
                pos <= out@.len(),
                before == views(out@),
                forall|j: int| 0 <= j < pos ==> time_key(#[trigger] before[j]) <= key,
                pos < out@.len() ==> time_key(before[pos as int]) > key,
            decreases out@.len() - pos,
        {
            assert(out@[pos as int]@ == before[pos as int]);
            if out[pos].accept_time().micros_of_day() > key {
                break;
            }
            pos += 1;
        }
        proof {
            assert forall|j: int| pos <= j < before.len() implies time_key(
                #[trigger] before[j],
            ) > time_key(q@) by {
                assert(time_key(before[pos as int]) > key);
                assert(time_key(before[pos as int]) <= time_key(before[j]));
            }
        }
        out.insert(pos, q);
        proof {
            assert(views(out@) =~= before.insert(pos as int, q@));
            assert(orig.take(i + 1) =~= orig.take(i as int).push(q@));
            assert forall|k: nat| #[trigger]
                views(out@).filter(at_time(k)) == orig.take(i + 1).filter(at_time(k)) by {
                lemma_insert_filter(before, pos as int, q@, k);
                lemma_push_filter(orig.take(i as int), q@, k);
            }
            assert forall|a: int, b: int| 0 <= a < b < views(out@).len() implies time_key(
                views(out@)[a],
            ) <= time_key(views(out@)[b]) by {
                if b < pos {
                } else if b == pos {
                } else if a < pos {
                    assert(time_key(before[a]) <= key);
                } else if a == pos {
                } else {
                }
            }
            assert forall|j: int| 0 <= j < out@.len() implies (#[trigger] out@[j])@.wf() by {
                if j < pos {
                    assert(out@[j]@ == before[j]);
                } else if j > pos {
                    assert(out@[j]@ == before[j - 1]);
                }
            }
        }
        i += 1;
    }
    assert(orig.take(n as int) =~= orig);
    out
}

/// `out` is `inp` ordered as `policy` asks.
pub open spec fn ordered_as(out: Seq<QuoteView>, inp: Seq<QuoteView>, policy: OrderPolicy) -> bool {
    match policy {
        OrderPolicy::Arrival => out == inp,
        OrderPolicy::AcceptTime => stable_sort_of(out, inp),
    }
}

/// Orders the collected quotes as `policy` asks.
pub fn order_quotes(quotes: Vec<Quote>, policy: OrderPolicy) -> (r: Vec<Quote>)
    requires
        forall|i: int| 0 <= i < quotes@.len() ==> (#[trigger] quotes@[i])@.wf(),
    ensures
        ordered_as(views(r@), views(quotes@), policy),
        forall|i: int| 0 <= i < r@.len() ==> (#[trigger] r@[i])@.wf(),
{
    match policy {
        OrderPolicy::Arrival => quotes,
        OrderPolicy::AcceptTime => sort_by_accept_time(quotes),
    }
}

/// The contents of a sequence of frames.
pub open spec fn frame_views(frames: Seq<Vec<u8>>) -> Seq<Seq<u8>> {
    frames.map_values(|f: Vec<u8>| f@)
}

/// What decoding a whole capture yields: the quotes of its frames in the
/// order in which they were read, or the error of the first frame that
/// raises one.
pub open spec fn capture_spec(frames: Seq<Seq<u8>>) -> Result<Seq<QuoteView>, DecodeError>
    decreases frames.len(),
{
    if frames.len() == 0 {
        Ok(Seq::empty())
    } else {
        match capture_spec(frames.drop_last()) {
            Err(e) => Err(e),
            Ok(qs) => match packet_spec(frames.last()) {
                Err(e) => Err(e),
                Ok(None) => Ok(qs),
                Ok(Some(q)) => Ok(qs.push(q)),
            },
        }
    }
}

/// Decodes every frame of a capture, in order, and keeps the quotes found;
/// the first frame whose payload cannot be decoded stops the whole run.
pub fn collect_quotes(frames: &Vec<Vec<u8>>) -> (r: Result<Vec<Quote>, DecodeError>)
    ensures
        match r {
            Ok(v) => capture_spec(frame_views(frames@)) == Ok::<Seq<QuoteView>, DecodeError>(
                views(v@),
            ) && forall|i: int| 0 <= i < v@.len() ==> (#[trigger] v@[i])@.wf(),
            Err(e) => capture_spec(frame_views(frames@)) == Err::<Seq<QuoteView>, DecodeError>(e),
        },
{
    let ghost fv = frame_views(frames@);
    let mut quotes: Vec<Quote> = Vec::new();
    let mut i: usize = 0;
    assert(fv.take(0).len() == 0);
    assert(views(quotes@) =~= Seq::<QuoteView>::empty());
    while i < frames.len()
        invariant
            fv == frame_views(frames@),
            i <= frames@.len(),
            capture_spec(fv.take(i as int)) == Ok::<Seq<QuoteView>, DecodeError>(views(quotes@)),
            forall|j: int| 0 <= j < quotes@.len() ==> (#[trigger] quotes@[j])@.wf(),
        decreases frames@.len() - i,
    {
        assert(fv.take(i + 1).drop_last() =~= fv.take(i as int));
        assert(fv.take(i + 1).last() == frames@[i as int]@);
        match parse_packet(frames[i].as_slice()) {
            Ok(Some(q)) => {
                let ghost before = quotes@;
                quotes.push(q);
                assert(views(quotes@) =~= views(before).push(q@));
            },
            Ok(None) => {},
            Err(e) => {
                proof {
                    lemma_capture_error_stays(fv, i as int + 1, e);
                }
                return Err(e);
            },
        }
        i += 1;
    }
    assert(fv.take(frames@.len() as int) =~= fv);
    Ok(quotes)
}

proof fn lemma_capture_error_stays(frames: Seq<Seq<u8>>, n: int, e: DecodeError)
    requires
        0 <= n <= frames.len(),
        capture_spec(frames.take(n)) == Err::<Seq<QuoteView>, DecodeError>(e),
    ensures
        capture_spec(frames) == Err::<Seq<QuoteView>, DecodeError>(e),
    decreases frames.len() - n,
{
    if n < frames.len() {
        assert(frames.take(n + 1).drop_last() =~= frames.take(n));
        lemma_capture_error_stays(frames, n + 1, e);
    } else {
        assert(frames.take(n) =~= frames);
    }
}

/// Decodes a whole capture and orders its quotes as `policy` asks.
pub fn decode_capture(frames: &Vec<Vec<u8>>, policy: OrderPolicy) -> (r: Result<
    Vec<Quote>,
    DecodeError,
>)
    ensures
        match capture_spec(frame_views(frames@)) {
            Ok(qs) => r matches Ok(v) && ordered_as(views(v@), qs, policy),
            Err(e) => r == Err::<Vec<Quote>, DecodeError>(e),
        },
{
    match collect_quotes(frames) {
        Ok(quotes) => Ok(order_quotes(quotes, policy)),
        Err(e) => Err(e),
    }
}

/// A capture none of whose frames holds the marker yields no quote, in
/// either order.
pub proof fn lemma_unmarked_capture_is_empty(frames: Seq<Seq<u8>>, out: Seq<QuoteView>, policy: OrderPolicy)
    requires
        forall|i: int| 0 <= i < frames.len() ==> !contains(#[trigger] frames[i], marker()),
        ordered_as(out, Seq::empty(), policy),
    ensures
        capture_spec(frames) == Ok::<Seq<QuoteView>, DecodeError>(Seq::empty()),
        out.len() == 0,
    decreases frames.len(),
{
    if frames.len() > 0 {
        assert forall|i: int| 0 <= i < frames.drop_last().len() implies !contains(
            #[trigger] frames.drop_last()[i],
            marker(),
        ) by {
            assert(frames.drop_last()[i] == frames[i]);
        }
        lemma_unmarked_capture_is_empty(frames.drop_last(), out, policy);
        assert(!contains(frames[frames.len() - 1], marker()));
    }
    if out.len() > 0 && policy == OrderPolicy::AcceptTime {
        let k = time_key(out[0]);
        out.lemma_filter_contains(at_time(k), 0);
        assert(out.filter(at_time(k)) == Seq::<QuoteView>::empty().filter(at_time(k)));
        reveal(Seq::filter);
        assert(Seq::<QuoteView>::empty().filter(at_time(k)).len() == 0);
    }
}

} // verus!
