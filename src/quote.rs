//! The quote record and its decoding from a capture frame.

use vstd::prelude::*;
use crate::ascii::{all_digits, decimal_value, is_digit, parse_decimal, utf8_text, utf8_valid};
use crate::locate::{contains, is_first_occurrence, occurs_at, split_once_subslice};
use crate::time::{TimeOfDay, parse_time, time_of_text, time_text_valid};

verus! {

/// Length of the marker that announces a quote payload.
pub const MARKER_LEN: usize = 5;

/// Index, within the payload, of the sentinel byte that closes it.
pub const SENTINEL_AT: usize = 209;

/// Value of the sentinel byte.
pub const SENTINEL: u8 = 0xFF;

/// Width of the issue code, which opens the payload.
pub const ISSUE_CODE_WIDTH: usize = 12;

/// Offset of the first bid level within the payload.
pub const BID_BASE: usize = 24;

/// Offset of the first ask level within the payload.
pub const ASK_BASE: usize = 91;

/// Distance between two levels of a ladder.
pub const LEVEL_STRIDE: usize = 12;

/// Width of a price field; the quantity field follows it.
pub const PRICE_WIDTH: usize = 5;

/// Width of a quantity field.
pub const QTY_WIDTH: usize = 7;

/// Number of levels in each ladder.
pub const LEVELS: usize = 5;

/// Offset of the accept time `HHMMSSuu` within the payload.
pub const TIME_AT: usize = 201;

/// Width of the accept time.
pub const TIME_WIDTH: usize = 8;

/// The marker `B6034` that announces a quote payload within a frame.
pub open spec fn marker() -> Seq<u8> {
    seq![66u8, 54u8, 48u8, 51u8, 52u8]
}

/// Why a located payload could not be decoded.
#[derive(Clone, Copy, Debug, PartialEq, Eq, Structural)]
pub enum DecodeError {
    /// The payload is shorter than its layout, or its closing byte is not 0xFF.
    MissingSentinel,
    /// The accept time is not eight digits naming a valid time of day.
    InvalidTime,
    /// The issue code is not UTF-8 text.
    InvalidIssueCode,
    /// A price or quantity field holds something other than decimal digits.
    InvalidNumber,
}

/// One decoded quote: the accept time, the issue code and both ladders, each
/// level a (quantity, price) pair in the order of the payload.
#[derive(Clone, Debug)]
pub struct Quote {
    pub accept_time: TimeOfDay,
    issue_code: Vec<u8>,
    bids: Vec<(u64, u64)>,
    asks: Vec<(u64, u64)>,
}

/// The content of a [`Quote`].
pub ghost struct QuoteView {
    pub accept_time: TimeOfDay,
    pub issue_code: Seq<u8>,
    pub bids: Seq<(u64, u64)>,
    pub asks: Seq<(u64, u64)>,
}

impl View for Quote {
    type V = QuoteView;

    closed spec fn view(&self) -> QuoteView {
        QuoteView {
            accept_time: self.accept_time,
            issue_code: self.issue_code@,
            bids: self.bids@,
            asks: self.asks@,
        }
    }
}

impl QuoteView {
    /// A valid time of day and two ladders of five levels each.
    pub open spec fn wf(self) -> bool {
        &&& self.accept_time.wf()
        &&& self.bids.len() == LEVELS
        &&& self.asks.len() == LEVELS
    }
}

impl Quote {
    /// Builds a quote from its parts: `None` unless the time of day is valid
    /// and each ladder has five levels.
    pub fn new(
        accept_time: TimeOfDay,
        issue_code: Vec<u8>,
        bids: Vec<(u64, u64)>,
        asks: Vec<(u64, u64)>,
    ) -> (r: Option<Quote>)
        ensures
            match r {
                Some(q) => q@ == (QuoteView {
                    accept_time,
                    issue_code: issue_code@,
                    bids: bids@,
                    asks: asks@,
                }),
                None => !(QuoteView {
                    accept_time,
                    issue_code: issue_code@,
                    bids: bids@,
                    asks: asks@,
                }).wf(),
            },
            r matches Some(q) ==> q@.wf(),
    {
        if accept_time.hour < 24 && accept_time.minute < 60 && accept_time.second < 60
            && accept_time.micro < 1_000_000 && bids.len() == LEVELS && asks.len() == LEVELS {
            Some(Quote { accept_time, issue_code, bids, asks })
        } else {
            None
        }
    }

    /// The accept time.
    pub fn accept_time(&self) -> (r: TimeOfDay)
        ensures
            r == self@.accept_time,
    {
        self.accept_time
    }

    /// The issue code, as the bytes of the payload.
    pub fn issue_code(&self) -> (r: &[u8])
        ensures
            r@ == self@.issue_code,
    {
        self.issue_code.as_slice()
    }

    /// The bid ladder, in the order of the payload.
    pub fn bids(&self) -> (r: &[(u64, u64)])
        ensures
            r@ == self@.bids,
    {
        self.bids.as_slice()
    }

    /// The ask ladder, in the order of the payload.
    pub fn asks(&self) -> (r: &[(u64, u64)])
        ensures
            r@ == self@.asks,
    {
        self.asks.as_slice()
    }
}

/// Offset of the price field of level `i` of the ladder that starts at `base`.
pub open spec fn price_at(base: int, i: int) -> int {
    base + LEVEL_STRIDE * i
}

/// Level `i` of the ladder at `base` holds only digits.
pub open spec fn level_valid(p: Seq<u8>, base: int, i: int) -> bool {
    &&& all_digits(p.subrange(price_at(base, i), price_at(base, i) + PRICE_WIDTH))
    &&& all_digits(
        p.subrange(price_at(base, i) + PRICE_WIDTH, price_at(base, i) + PRICE_WIDTH + QTY_WIDTH),
    )
}

/// The (quantity, price) pair of level `i` of the ladder at `base`.
pub open spec fn level_at(p: Seq<u8>, base: int, i: int) -> (u64, u64) {
    (
        decimal_value(
            p.subrange(price_at(base, i) + PRICE_WIDTH, price_at(base, i) + PRICE_WIDTH + QTY_WIDTH),
        ) as u64,
        decimal_value(p.subrange(price_at(base, i), price_at(base, i) + PRICE_WIDTH)) as u64,
    )
}

/// Every level of the ladder at `base` holds only digits.
pub open spec fn ladder_valid(p: Seq<u8>, base: int) -> bool {
    forall|i: int| 0 <= i < LEVELS ==> level_valid(p, base, i)
}

/// The five levels of the ladder at `base`.
pub open spec fn ladder_of(p: Seq<u8>, base: int) -> Seq<(u64, u64)> {
    Seq::new(LEVELS as nat, |i: int| level_at(p, base, i))
}

/// The payload is long enough and closed by the sentinel byte.
pub open spec fn sentinel_ok(p: Seq<u8>) -> bool {
    p.len() > SENTINEL_AT && p[SENTINEL_AT as int] == SENTINEL
}

/// The accept-time field of a payload.
pub open spec fn time_field(p: Seq<u8>) -> Seq<u8> {
    p.subrange(TIME_AT as int, TIME_AT + TIME_WIDTH)
}

/// The issue-code field of a payload.
pub open spec fn issue_field(p: Seq<u8>) -> Seq<u8> {
    p.subrange(0, ISSUE_CODE_WIDTH as int)
}

/// The first check that a payload fails, in the order in which they are made:
/// the sentinel, the accept time, the issue code, then every number.
pub open spec fn decode_error(p: Seq<u8>) -> Option<DecodeError> {
    if !sentinel_ok(p) {
        Some(DecodeError::MissingSentinel)
    } else if !time_text_valid(time_field(p)) {
        Some(DecodeError::InvalidTime)
    } else if !utf8_valid(issue_field(p)) {
        Some(DecodeError::InvalidIssueCode)
    } else if !(ladder_valid(p, BID_BASE as int) && ladder_valid(p, ASK_BASE as int)) {
        Some(DecodeError::InvalidNumber)
    } else {
        None
    }
}

/// The quote that a payload holds.
pub open spec fn decoded(p: Seq<u8>) -> QuoteView {
    QuoteView {
        accept_time: time_of_text(time_field(p)),
        issue_code: issue_field(p),
        bids: ladder_of(p, BID_BASE as int),
        asks: ladder_of(p, ASK_BASE as int),
    }
}

/// What decoding a payload yields.
pub open spec fn decode_spec(p: Seq<u8>) -> Result<QuoteView, DecodeError> {
    match decode_error(p) {
        Some(e) => Err(e),
        None => Ok(decoded(p)),
    }
}

/// The payload of a frame: what follows the first marker, if there is one.
pub open spec fn payload_of(data: Seq<u8>) -> Option<Seq<u8>> {
    if contains(data, marker()) {
        let i = choose|i: int| is_first_occurrence(data, marker(), i);
        Some(data.subrange(i + MARKER_LEN, data.len() as int))
    } else {
        None
    }
}

/// What decoding a frame yields: no quote where it has no marker.
pub open spec fn packet_spec(data: Seq<u8>) -> Result<Option<QuoteView>, DecodeError> {
    match payload_of(data) {
        None => Ok(None),
        Some(p) => match decode_spec(p) {
            Ok(q) => Ok(Some(q)),
            Err(e) => Err(e),
        },
    }
}

fn copy_bytes(s: &[u8]) -> (r: Vec<u8>)
    ensures
        r@ == s@,
{
    let mut r: Vec<u8> = Vec::new();
    let mut i: usize = 0;
    while i < s.len()
        invariant
            i <= s@.len(),
            r@ == s@.take(i as int),
        decreases s@.len() - i,
    {
        r.push(s[i]);
        assert(r@ =~= s@.take(i + 1));
        i += 1;
    }
    assert(r@ =~= s@);
    r
}

fn decode_ladder(p: &[u8], base: usize) -> (r: Option<Vec<(u64, u64)>>)
    requires
        base + LEVEL_STRIDE * LEVELS <= p@.len(),
    ensures
        match r {
            Some(v) => ladder_valid(p@, base as int) && v@ == ladder_of(p@, base as int),
            None => !ladder_valid(p@, base as int),
        },
{
    let len = p.len();
    let mut ladder: Vec<(u64, u64)> = Vec::new();
    let mut i: usize = 0;
    while i < LEVELS
        invariant
            len == p@.len(),
            base + LEVEL_STRIDE * LEVELS <= p@.len(),
            i <= LEVELS,
            ladder@ == ladder_of(p@, base as int).take(i as int),
            forall|j: int| 0 <= j < i ==> level_valid(p@, base as int, j),
        decreases LEVELS - i,
    {
        let start = base + LEVEL_STRIDE * i;
        assert(start == price_at(base as int, i as int));
        let price = match parse_decimal(p, start, PRICE_WIDTH) {
            Some(v) => v,
            None => {
                assert(!level_valid(p@, base as int, i as int));
                return None;
            },
        };
        let qty = match parse_decimal(p, start + PRICE_WIDTH, QTY_WIDTH) {
            Some(v) => v,
            None => {
                assert(!level_valid(p@, base as int, i as int));
                return None;
            },
        };
        ladder.push((qty, price));
        assert(ladder@ =~= ladder_of(p@, base as int).take(i + 1));
        i += 1;
    }
    assert(ladder@ =~= ladder_of(p@, base as int));
    Some(ladder)
}

/// Decodes a located payload into a quote, or says which check it fails first.
pub fn decode_payload(payload: &[u8]) -> (r: Result<Quote, DecodeError>)
    ensures
        match r {
            Ok(q) => decode_spec(payload@) == Ok::<QuoteView, DecodeError>(q@) && q@.wf(),
            Err(e) => decode_spec(payload@) == Err::<QuoteView, DecodeError>(e),
        },
{
    let p = payload;
    if p.len() <= SENTINEL_AT || p[SENTINEL_AT] != SENTINEL {
        return Err(DecodeError::MissingSentinel);
    }
    let time_text = vstd::slice::slice_subrange(p, TIME_AT, TIME_AT + TIME_WIDTH);
    let accept_time = match parse_time(time_text) {
        Some(t) => t,
        None => return Err(DecodeError::InvalidTime),
    };
    let issue = vstd::slice::slice_subrange(p, 0, ISSUE_CODE_WIDTH);
    if utf8_text(issue).is_none() {
        return Err(DecodeError::InvalidIssueCode);
    }
    let bids = match decode_ladder(p, BID_BASE) {
        Some(v) => v,
        None => return Err(DecodeError::InvalidNumber),
    };
    let asks = match decode_ladder(p, ASK_BASE) {
        Some(v) => v,
        None => return Err(DecodeError::InvalidNumber),
    };
    let issue_code = copy_bytes(issue);
    let q = Quote { accept_time, issue_code, bids, asks };
    assert(q@ == decoded(p@));
    Ok(q)
}

/// Decodes one frame: `Ok(None)` when it has no marker, else the quote in the
/// payload that follows the first marker, or the error that payload raises.
pub fn parse_packet(data: &[u8]) -> (r: Result<Option<Quote>, DecodeError>)
    ensures
        match r {
            Ok(Some(q)) => packet_spec(data@) == Ok::<Option<QuoteView>, DecodeError>(Some(q@))
                && q@.wf(),
            Ok(None) => packet_spec(data@) == Ok::<Option<QuoteView>, DecodeError>(None),
            Err(e) => packet_spec(data@) == Err::<Option<QuoteView>, DecodeError>(e),
        },
        !contains(data@, marker()) ==> r matches Ok(None),
{
    let pattern: Vec<u8> = vec![66, 54, 48, 51, 52];
    assert(pattern@ =~= marker());
    match split_once_subslice(data, pattern.as_slice()) {
        None => Ok(None),
        Some((_before, after)) => {
            proof {
                let i = choose|i: int|
                    {
                        &&& is_first_occurrence(data@, marker(), i)
                        &&& after@ == data@.subrange(i + MARKER_LEN, data@.len() as int)
                    };
                let k = choose|k: int| is_first_occurrence(data@, marker(), k);
                assert(contains(data@, marker()));
                if k < i {
                    assert(!occurs_at(data@, marker(), k));
                } else if i < k {
                    assert(!occurs_at(data@, marker(), i));
                }
                assert(payload_of(data@) == Some(after@));
            }
            match decode_payload(after) {
                Ok(q) => Ok(Some(q)),
                Err(e) => Err(e),
            }
        },
    }
}

/// Decoding is a function of the payload's bytes alone: two quotes decoded
/// from the same payload are the same quote.
pub proof fn lemma_decode_deterministic(p: Seq<u8>, a: Quote, b: Quote)
    requires
        decode_spec(p) == Ok::<QuoteView, DecodeError>(a@),
        decode_spec(p) == Ok::<QuoteView, DecodeError>(b@),
    ensures
        a@ == b@,
{
}

} // verus!
