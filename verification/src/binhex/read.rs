//! Extraction of the still-encoded payload from a raw BinHex container.
//!
//! The data produced by an [`EncodedBinHexReader`] is the still-encoded data
//! contained within a BinHex source (usually a file) stripped of extraneous
//! banners, delimiters, and whitespace. Callers will almost certainly need
//! to pass the data through a BinHex decoder.
//!
//! The reader is a resumable state machine fed one chunk of container bytes
//! at a time; it produces the same payload no matter how the container is
//! cut into chunks ([`lemma_run_chunked`]).

use vstd::prelude::*;

use crate::binhex::archive::BinHexError;

verus! {

/// The byte at position `i` of the banner text
/// `(This file must be converted with BinHex`.
pub open spec fn spec_banner_at(i: int) -> u8 {
    if i == 0 {
        40
    } else if i == 1 {
        84
    } else if i == 2 {
        104
    } else if i == 3 {
        105
    } else if i == 4 {
        115
    } else if i == 5 {
        32
    } else if i == 6 {
        102
    } else if i == 7 {
        105
    } else if i == 8 {
        108
    } else if i == 9 {
        101
    } else if i == 10 {
        32
    } else if i == 11 {
        109
    } else if i == 12 {
        117
    } else if i == 13 {
        115
    } else if i == 14 {
        116
    } else if i == 15 {
        32
    } else if i == 16 {
        98
    } else if i == 17 {
        101
    } else if i == 18 {
        32
    } else if i == 19 {
        99
    } else if i == 20 {
        111
    } else if i == 21 {
        110
    } else if i == 22 {
        118
    } else if i == 23 {
        101
    } else if i == 24 {
        114
    } else if i == 25 {
        116
    } else if i == 26 {
        101
    } else if i == 27 {
        100
    } else if i == 28 {
        32
    } else if i == 29 {
        119
    } else if i == 30 {
        105
    } else if i == 31 {
        116
    } else if i == 32 {
        104
    } else if i == 33 {
        32
    } else if i == 34 {
        66
    } else if i == 35 {
        105
    } else if i == 36 {
        110
    } else if i == 37 {
        72
    } else if i == 38 {
        101
    } else {
        120
    }
}

/// The banner text `(This file must be converted with BinHex` that every
/// container must carry in front of its payload.
pub open spec fn spec_banner() -> Seq<u8> {
    Seq::new(40, |i: int| spec_banner_at(i))
}

/// Length of the banner in bytes.
pub const BANNER_LEN: usize = 40;

/// The `:` delimiter that opens and closes the encoded payload.
pub const DATA_DELIMITER: u8 = 58;

/// The four ASCII whitespace bytes (space, tab, CR, LF) that may be
/// interleaved with the encoded payload.
pub open spec fn is_ws_byte(b: u8) -> bool {
    b == 32 || b == 9 || b == 13 || b == 10
}

/// Runtime test for the whitespace class used throughout the reader.
pub fn is_whitespace(b: u8) -> (r: bool)
    ensures
        r == is_ws_byte(b),
{
    b == 32 || b == 9 || b == 13 || b == 10
}

/// The banner byte at position `n`.
pub fn banner_byte(n: usize) -> (b: u8)
    requires
        n < BANNER_LEN,
    ensures
        b == spec_banner()[n as int],
{
    match n {
        0 => 40,
        1 => 84,
        2 => 104,
        3 => 105,
        4 => 115,
        5 => 32,
        6 => 102,
        7 => 105,
        8 => 108,
        9 => 101,
        10 => 32,
        11 => 109,
        12 => 117,
        13 => 115,
        14 => 116,
        15 => 32,
        16 => 98,
        17 => 101,
        18 => 32,
        19 => 99,
        20 => 111,
        21 => 110,
        22 => 118,
        23 => 101,
        24 => 114,
        25 => 116,
        26 => 101,
        27 => 100,
        28 => 32,
        29 => 119,
        30 => 105,
        31 => 116,
        32 => 104,
        33 => 32,
        34 => 66,
        35 => 105,
        36 => 110,
        37 => 72,
        38 => 101,
        _ => 120,
    }
}

/// Relies on `memchr::memchr`: returns the index of the first occurrence
/// of `needle` in `haystack`, or `None` if there is none.
pub assume_specification [ memchr::memchr ](needle: u8, haystack: &[u8]) -> (r: Option<usize>)
    ensures
        r matches Some(i) ==> i < haystack@.len() && haystack@[i as int] == needle && (forall|
            j: int,
        |
            0 <= j < i ==> haystack@[j] != needle),
        r is None ==> forall|j: int| 0 <= j < haystack@.len() ==> haystack@[j] != needle,
;

/// Relies on `memchr::memchr3`: returns the index of the first occurrence
/// of any of the three needles in `haystack`, or `None` if there is none.
pub assume_specification [ memchr::memchr3 ](
    needle1: u8,
    needle2: u8,
    needle3: u8,
    haystack: &[u8],
) -> (r: Option<usize>)
    ensures
        r matches Some(i) ==> i < haystack@.len() && (haystack@[i as int] == needle1
            || haystack@[i as int] == needle2 || haystack@[i as int] == needle3) && (forall|j: int|
            0 <= j < i ==> haystack@[j] != needle1 && haystack@[j] != needle2 && haystack@[j]
                != needle3),
        r is None ==> forall|j: int|
            0 <= j < haystack@.len() ==> haystack@[j] != needle1 && haystack@[j] != needle2
                && haystack@[j] != needle3,
;

/// Returns the position of the first whitespace byte in `bytes`, or `None`
/// when there is none.
pub fn next_whitespace(bytes: &[u8]) -> (r: Option<usize>)
    ensures
        r matches Some(i) ==> i < bytes@.len() && is_ws_byte(bytes@[i as int]) && (forall|j: int|
            0 <= j < i ==> !is_ws_byte(bytes@[j])),
        r is None ==> forall|j: int| 0 <= j < bytes@.len() ==> !is_ws_byte(bytes@[j]),
{
    let space = memchr::memchr(32, bytes);
    let other = memchr::memchr3(9, 13, 10, bytes);
    match (space, other) {
        (Some(a), Some(b)) => if a < b {
            Some(a)
        } else {
            Some(b)
        },
        (Some(a), None) => Some(a),
        (None, Some(b)) => Some(b),
        (None, None) => None,
    }
}

/// Returns the position of the first non-whitespace byte in `bytes`, or
/// `None` when `bytes` is empty or all whitespace.
pub fn next_data_byte(bytes: &[u8]) -> (r: Option<usize>)
    ensures
        r matches Some(i) ==> i < bytes@.len() && !is_ws_byte(bytes@[i as int]) && (forall|j: int|
            0 <= j < i ==> is_ws_byte(bytes@[j])),
        r is None ==> forall|j: int| 0 <= j < bytes@.len() ==> is_ws_byte(bytes@[j]),
{
    let mut i: usize = 0;
    while i < bytes.len()
        invariant
            i <= bytes@.len(),
            forall|j: int| 0 <= j < i ==> is_ws_byte(bytes@[j]),
        decreases bytes@.len() - i,
    {
        if !is_whitespace(bytes[i]) {
            return Some(i);
        }
        i = i + 1;
    }
    None
}

/// The bytes that survive whitespace removal.
pub open spec fn keep_non_ws() -> spec_fn(u8) -> bool {
    |b: u8| !is_ws_byte(b)
}

/// Filtering distributes over appending one element.
proof fn lemma_filter_push(s: Seq<u8>, pred: spec_fn(u8) -> bool, b: u8)
    ensures
        s.push(b).filter(pred) == if pred(b) {
            s.filter(pred).push(b)
        } else {
            s.filter(pred)
        },
{
    reveal(Seq::filter);
    assert(s.push(b).drop_last() =~= s);
}

/// Moves every non-whitespace byte of `bytes` to the front, keeping their
/// order, and returns how many there are; the bytes beyond that prefix are
/// left over from the shuffle and carry no meaning.
pub fn compact(bytes: &mut Vec<u8>) -> (r: usize)
    ensures
        r <= old(bytes)@.len(),
        final(bytes)@.len() == old(bytes)@.len(),
        final(bytes)@.take(r as int) == old(bytes)@.filter(keep_non_ws()),
{
    let mut write: usize = 0;
    let mut i: usize = 0;
    while i < bytes.len()
        invariant
            write <= i <= bytes@.len(),
            bytes@.len() == old(bytes)@.len(),
            bytes@.take(write as int) == old(bytes)@.take(i as int).filter(keep_non_ws()),
            forall|j: int| i <= j < bytes@.len() ==> bytes@[j] == old(bytes)@[j],
        decreases bytes@.len() - i,
    {
        let b = bytes[i];
        proof {
            assert(b == old(bytes)@[i as int]);
            assert(old(bytes)@.take(i + 1) =~= old(bytes)@.take(i as int).push(
                old(bytes)@[i as int],
            ));
            lemma_filter_push(old(bytes)@.take(i as int), keep_non_ws(), old(bytes)@[i as int]);
        }
        if !is_whitespace(b) {
            let ghost before = bytes@;
            bytes[write] = b;
            proof {
                assert(bytes@.take(write + 1) =~= before.take(write as int).push(b));
            }
            write = write + 1;
        }
        i = i + 1;
    }
    proof {
        assert(old(bytes)@.take(bytes@.len() as int) =~= old(bytes)@);
    }
    write
}

/// Where the reader stands while scanning a container.
#[derive(Copy, Clone, Debug, PartialEq, Eq, Structural)]
pub enum State {
    /// Still looking for the first byte of the banner.
    FindBannerStart,
    /// The first `n` banner bytes have been matched.
    PartialBannerMatch(usize),
    /// The banner has been matched; looking for the opening `:`.
    FindDataStart,
    /// Inside the payload, copying non-whitespace bytes.
    ReadData,
    /// The closing `:` has been seen; the payload is complete.
    Done,
}

/// What one round of scanning observed.
#[derive(Copy, Clone, Debug)]
pub enum Event {
    /// Bytes were consumed without changing what the reader looks for.
    ConsumedBytes,
    /// The first banner byte was found.
    FoundBannerStart,
    /// The given number of further banner bytes matched.
    MatchedBannerBytes(usize),
    /// The opening `:` was found.
    FoundDataStart,
    /// The closing `:` was found.
    FoundDataEnd,
}

/// The pure transition relation of the reader: which state follows from a
/// state and an observed event. Pairs that no scan can produce are rejected.
pub open spec fn spec_advance(s: State, event: Event) -> Result<State, BinHexError> {
    match (s, event) {
        (State::FindBannerStart, Event::ConsumedBytes) => Ok(State::FindBannerStart),
        (State::FindBannerStart, Event::FoundBannerStart) => Ok(State::PartialBannerMatch(1)),
        (State::PartialBannerMatch(_), Event::ConsumedBytes) => Ok(State::FindBannerStart),
        (State::PartialBannerMatch(len), Event::MatchedBannerBytes(matched)) => {
            if len + matched == BANNER_LEN {
                Ok(State::FindDataStart)
            } else {
                Ok(State::PartialBannerMatch((len + matched) as usize))
            }
        },
        (State::FindDataStart, Event::ConsumedBytes) => Ok(State::FindDataStart),
        (State::FindDataStart, Event::FoundDataStart) => Ok(State::ReadData),
        (State::ReadData, Event::ConsumedBytes) => Ok(State::ReadData),
        (State::ReadData, Event::FoundDataEnd) => Ok(State::Done),
        _ => Err(BinHexError::InvalidData),
    }
}

impl State {
    /// Steps the state machine by one event.
    pub fn advance(&self, event: Event) -> (r: Result<State, BinHexError>)
        requires
            match (*self, event) {
                (State::PartialBannerMatch(len), Event::MatchedBannerBytes(matched)) => len
                    + matched <= BANNER_LEN,
                _ => true,
            },
        ensures
            r == spec_advance(*self, event),
    {
        match (self, event) {
            (State::FindBannerStart, Event::ConsumedBytes) => Ok(State::FindBannerStart),
            (State::FindBannerStart, Event::FoundBannerStart) => Ok(State::PartialBannerMatch(1)),
            (State::PartialBannerMatch(_), Event::ConsumedBytes) => Ok(State::FindBannerStart),
            (State::PartialBannerMatch(len), Event::MatchedBannerBytes(matched)) => {
                if *len + matched == BANNER_LEN {
                    Ok(State::FindDataStart)
                } else {
                    Ok(State::PartialBannerMatch(*len + matched))
                }
            },
            (State::FindDataStart, Event::ConsumedBytes) => Ok(State::FindDataStart),
            (State::FindDataStart, Event::FoundDataStart) => Ok(State::ReadData),
            (State::ReadData, Event::ConsumedBytes) => Ok(State::ReadData),
            (State::ReadData, Event::FoundDataEnd) => Ok(State::Done),
            _ => Err(BinHexError::InvalidData),
        }
    }
}

/// States that scanning can actually reach: a partial banner match always
/// covers at least the first byte and never the whole banner.
pub open spec fn state_wf(s: State) -> bool {
    s matches State::PartialBannerMatch(n) ==> 1 <= n < BANNER_LEN
}

/// How one container byte moves the reader, and which payload bytes (if
/// any) it contributes.
///
/// A failed partial banner match falls back to checking whether the
/// mismatching byte itself starts the banner again; nothing earlier needs
/// rescanning because the banner's first byte occurs nowhere else in it.
pub open spec fn spec_step(s: State, b: u8) -> (State, Seq<u8>) {
    match s {
        State::FindBannerStart => {
            if b == spec_banner()[0] {
                (State::PartialBannerMatch(1), Seq::empty())
            } else {
                (State::FindBannerStart, Seq::empty())
            }
        },
        State::PartialBannerMatch(n) => {
            if n < BANNER_LEN && b == spec_banner()[n as int] {
                if n + 1 == BANNER_LEN {
                    (State::FindDataStart, Seq::empty())
                } else {
                    (State::PartialBannerMatch((n + 1) as usize), Seq::empty())
                }
            } else if b == spec_banner()[0] {
                (State::PartialBannerMatch(1), Seq::empty())
            } else {
                (State::FindBannerStart, Seq::empty())
            }
        },
        State::FindDataStart => {
            if b == DATA_DELIMITER {
                (State::ReadData, Seq::empty())
            } else {
                (State::FindDataStart, Seq::empty())
            }
        },
        State::ReadData => {
            if b == DATA_DELIMITER {
                (State::Done, Seq::empty())
            } else if is_ws_byte(b) {
                (State::ReadData, Seq::empty())
            } else {
                (State::ReadData, seq![b])
            }
        },
        State::Done => (State::Done, Seq::empty()),
    }
}

/// The reader's behaviour over a whole byte sequence: the state it ends in
/// and the payload bytes it emits.
pub open spec fn spec_run(s: State, input: Seq<u8>) -> (State, Seq<u8>)
    decreases input.len(),
{
    if input.len() == 0 {
        (s, Seq::empty())
    } else {
        let first = spec_step(s, input[0]);
        let rest = spec_run(first.0, input.drop_first());
        (rest.0, first.1 + rest.1)
    }
}

/// One byte keeps the reader in a reachable state.
pub proof fn lemma_step_wf(s: State, b: u8)
    requires
        state_wf(s),
    ensures
        state_wf(spec_step(s, b).0),
{
}

/// A whole sequence keeps the reader in a reachable state.
pub proof fn lemma_run_wf(s: State, input: Seq<u8>)
    requires
        state_wf(s),
    ensures
        state_wf(spec_run(s, input).0),
    decreases input.len(),
{
    if input.len() > 0 {
        lemma_step_wf(s, input[0]);
        lemma_run_wf(spec_step(s, input[0]).0, input.drop_first());
    }
}

/// Feeding the container in two pieces is the same as feeding it whole: the
/// reader ends in the same state and emits the same payload bytes. Applied
/// inductively, the payload is byte-identical for every way of cutting the
/// source into chunks, from single bytes to the whole file.
pub proof fn lemma_run_chunked(s: State, a: Seq<u8>, b: Seq<u8>)
    ensures
        spec_run(s, a + b).0 == spec_run(spec_run(s, a).0, b).0,
        spec_run(s, a + b).1 == spec_run(s, a).1 + spec_run(spec_run(s, a).0, b).1,
    decreases a.len(),
{
    if a.len() == 0 {
        assert(a + b =~= b);
        assert(spec_run(s, a).1 + spec_run(spec_run(s, a).0, b).1 =~= spec_run(s, b).1);
    } else {
        let first = spec_step(s, a[0]);
        assert((a + b).drop_first() =~= a.drop_first() + b);
        lemma_run_chunked(first.0, a.drop_first(), b);
        assert(first.1 + (spec_run(first.0, a.drop_first()).1 + spec_run(
            spec_run(s, a).0,
            b,
        ).1) =~= (first.1 + spec_run(first.0, a.drop_first()).1) + spec_run(spec_run(s, a).0, b).1);
    }
}

/// Appending one byte steps the run by one.
proof fn lemma_run_snoc(s: State, t: Seq<u8>, b: u8)
    ensures
        spec_run(s, t.push(b)).0 == spec_step(spec_run(s, t).0, b).0,
        spec_run(s, t.push(b)).1 == spec_run(s, t).1 + spec_step(spec_run(s, t).0, b).1,
{
    assert(t.push(b) =~= t + seq![b]);
    lemma_run_chunked(s, t, seq![b]);
    let mid = spec_run(s, t).0;
    let stepped = spec_step(mid, b);
    let empty = Seq::<u8>::empty();
    assert(seq![b][0] == b);
    assert(seq![b].drop_first() =~= empty);
    assert(spec_run(stepped.0, empty) == (stepped.0, empty));
    assert(spec_run(mid, seq![b]).0 == stepped.0);
    assert(spec_run(mid, seq![b]).1 =~= stepped.1);
}

/// No banner byte after the first equals the first one, so a failed
/// partial match can only restart at the byte under scrutiny; nothing
/// inside an abandoned partial match needs rescanning.
pub proof fn lemma_banner_start_unique()
    ensures
        forall|k: int| 1 <= k < 40 ==> #[trigger] spec_banner()[k] != spec_banner()[0],
{
}

/// A reader that has moved past banner scanning never returns to it.
proof fn lemma_no_return_to_scanning(s: State, input: Seq<u8>)
    requires
        !(s is FindBannerStart || s is PartialBannerMatch),
    ensures
        !(spec_run(s, input).0 is FindBannerStart || spec_run(
            s,
            input,
        ).0 is PartialBannerMatch),
    decreases input.len(),
{
    if input.len() > 0 {
        lemma_no_return_to_scanning(spec_step(s, input[0]).0, input.drop_first());
    }
}

/// A reader that is still scanning for the banner has emitted nothing.
proof fn lemma_scanning_no_output(s: State, input: Seq<u8>)
    requires
        s is FindBannerStart || s is PartialBannerMatch,
        spec_run(s, input).0 is FindBannerStart || spec_run(s, input).0 is PartialBannerMatch,
    ensures
        spec_run(s, input).1 == Seq::<u8>::empty(),
    decreases input.len(),
{
    if input.len() > 0 {
        let next = spec_step(s, input[0]).0;
        if next is FindBannerStart || next is PartialBannerMatch {
            lemma_scanning_no_output(next, input.drop_first());
            assert(spec_run(s, input).1 =~= Seq::<u8>::empty());
        } else {
            lemma_no_return_to_scanning(next, input.drop_first());
        }
    }
}

/// From a partial match of the first `n` banner bytes, the rest of the
/// banner carries the reader to the delimiter search.
proof fn lemma_banner_tail(n: usize)
    requires
        1 <= n < 40,
    ensures
        spec_run(State::PartialBannerMatch(n), spec_banner().skip(n as int)).0
            == State::FindDataStart,
        spec_run(State::PartialBannerMatch(n), spec_banner().skip(n as int)).1 == Seq::<
            u8,
        >::empty(),
    decreases 40 - n,
{
    let rest = spec_banner().skip(n as int);
    assert(rest.len() == 40 - n);
    assert(rest[0] == spec_banner()[n as int]);
    let first = spec_step(State::PartialBannerMatch(n), rest[0]);
    assert(rest.drop_first() =~= spec_banner().skip(n + 1));
    if n + 1 == 40 {
        assert(first.0 == State::FindDataStart);
        assert(spec_banner().skip(n + 1) =~= Seq::<u8>::empty());
        assert(spec_run(first.0, rest.drop_first()) == (first.0, Seq::<u8>::empty()));
    } else {
        assert(first.0 == State::PartialBannerMatch((n + 1) as usize));
        lemma_banner_tail((n + 1) as usize);
        assert(spec_run(first.0, rest.drop_first()).0 == State::FindDataStart);
        assert(spec_run(first.0, rest.drop_first()).1 == Seq::<u8>::empty());
    }
    assert(spec_run(State::PartialBannerMatch(n), rest).0 == spec_run(
        first.0,
        rest.drop_first(),
    ).0);
    assert(spec_run(State::PartialBannerMatch(n), rest).1 =~= Seq::<u8>::empty());
}

/// Banner scanning accepts an arbitrary prefix: whatever text precedes the
/// banner, as long as the reader is still scanning when the banner begins,
/// the banner itself carries the reader to the delimiter search, with
/// nothing emitted along the way. With [`lemma_run_chunked`], the payload
/// read from `prefix + banner + rest` is exactly the payload read from
/// `rest` alone after the opening delimiter.
pub proof fn lemma_banner_found_after_any_prefix(prefix: Seq<u8>)
    requires
        spec_run(State::FindBannerStart, prefix).0 is FindBannerStart || spec_run(
            State::FindBannerStart,
            prefix,
        ).0 is PartialBannerMatch,
    ensures
        spec_run(State::FindBannerStart, prefix + spec_banner()).0 == State::FindDataStart,
        spec_run(State::FindBannerStart, prefix + spec_banner()).1 == Seq::<u8>::empty(),
{
    lemma_run_wf(State::FindBannerStart, prefix);
    lemma_run_chunked(State::FindBannerStart, prefix, spec_banner());
    lemma_scanning_no_output(State::FindBannerStart, prefix);
    let mid = spec_run(State::FindBannerStart, prefix).0;
    let first = spec_step(mid, spec_banner()[0]).0;
    assert(spec_banner().drop_first() =~= spec_banner().skip(1));
    match mid {
        State::FindBannerStart => {
            assert(first == State::PartialBannerMatch(1usize));
        },
        State::PartialBannerMatch(k) => {
            lemma_banner_start_unique();
            assert(spec_banner()[k as int] != spec_banner()[0]);
            assert(first == State::PartialBannerMatch(1usize));
        },
        _ => {
            assert(false);
        },
    }
    lemma_banner_tail(1);
    assert(spec_run(State::FindBannerStart, prefix + spec_banner()).1 =~= Seq::<u8>::empty());
}

/// A container that never shows the banner's first byte leaves the reader
/// scanning forever: nothing is emitted and the payload never begins.
pub proof fn lemma_no_banner_no_progress(input: Seq<u8>)
    requires
        forall|j: int| 0 <= j < input.len() ==> input[j] != spec_banner()[0],
    ensures
        spec_run(State::FindBannerStart, input).0 == State::FindBannerStart,
        spec_run(State::FindBannerStart, input).1 == Seq::<u8>::empty(),
    decreases input.len(),
{
    if input.len() > 0 {
        assert(spec_step(State::FindBannerStart, input[0]).0 == State::FindBannerStart);
        lemma_no_banner_no_progress(input.drop_first());
        assert(spec_run(State::FindBannerStart, input).1 =~= Seq::<u8>::empty());
    }
}

/// Extracts the encoded BinHex payload from a container delivered in
/// arbitrary chunks.
///
/// Feed raw container bytes with [`push`](Self::push); the payload bytes
/// found so far accumulate in the caller's sink. Call
/// [`finish`](Self::finish) once the container is exhausted to learn
/// whether the closing delimiter was ever reached.
pub struct EncodedBinHexReader {
    /// Where the scan stands; starts at [`State::FindBannerStart`].
    pub state: State,
}

impl EncodedBinHexReader {
    /// A reader that has consumed nothing yet.
    pub fn new() -> (r: Self)
        ensures
            r.state == State::FindBannerStart,
    {
        EncodedBinHexReader { state: State::FindBannerStart }
    }

    /// Consumes the next chunk of raw container bytes, appending whatever
    /// payload bytes they contain to `out`.
    pub fn push(&mut self, chunk: &[u8], out: &mut Vec<u8>)
        requires
            state_wf(old(self).state),
        ensures
            final(self).state == spec_run(old(self).state, chunk@).0,
            final(out)@ == old(out)@ + spec_run(old(self).state, chunk@).1,
            state_wf(final(self).state),
    {
        let ghost s0 = self.state;
        let mut i: usize = 0;
        while i < chunk.len()
            invariant
                i <= chunk@.len(),
                state_wf(self.state),
                self.state == spec_run(s0, chunk@.take(i as int)).0,
                out@ == old(out)@ + spec_run(s0, chunk@.take(i as int)).1,
            decreases chunk@.len() - i,
        {
            let b = chunk[i];
            proof {
                assert(chunk@.take(i + 1) =~= chunk@.take(i as int).push(chunk@[i as int]));
                lemma_run_snoc(s0, chunk@.take(i as int), chunk@[i as int]);
                lemma_step_wf(self.state, chunk@[i as int]);
            }
            match self.state {
                State::FindBannerStart => {
                    if b == banner_byte(0) {
                        self.state = match self.state.advance(Event::FoundBannerStart) {
                            Ok(s) => s,
                            Err(_) => vstd::pervasive::unreached(),
                        };
                    } else {
                        self.state = match self.state.advance(Event::ConsumedBytes) {
                            Ok(s) => s,
                            Err(_) => vstd::pervasive::unreached(),
                        };
                    }
                },
                State::PartialBannerMatch(n) => {
                    if b == banner_byte(n) {
                        self.state = match self.state.advance(Event::MatchedBannerBytes(1)) {
                            Ok(s) => s,
                            Err(_) => vstd::pervasive::unreached(),
                        };
                    } else {
                        // The partial match failed: resume scanning at this
                        // very byte, which is the only place a new banner
                        // could begin.
                        self.state = match self.state.advance(Event::ConsumedBytes) {
                            Ok(s) => s,
                            Err(_) => vstd::pervasive::unreached(),
                        };
                        if b == banner_byte(0) {
                            self.state = match self.state.advance(Event::FoundBannerStart) {
                                Ok(s) => s,
                                Err(_) => vstd::pervasive::unreached(),
                            };
                        }
                    }
                },
                State::FindDataStart => {
                    if b == DATA_DELIMITER {
                        self.state = match self.state.advance(Event::FoundDataStart) {
                            Ok(s) => s,
                            Err(_) => vstd::pervasive::unreached(),
                        };
                    } else {
                        self.state = match self.state.advance(Event::ConsumedBytes) {
                            Ok(s) => s,
                            Err(_) => vstd::pervasive::unreached(),
                        };
                    }
                },
                State::ReadData => {
                    if b == DATA_DELIMITER {
                        self.state = match self.state.advance(Event::FoundDataEnd) {
                            Ok(s) => s,
                            Err(_) => vstd::pervasive::unreached(),
                        };
                    } else if is_whitespace(b) {
                        self.state = match self.state.advance(Event::ConsumedBytes) {
                            Ok(s) => s,
                            Err(_) => vstd::pervasive::unreached(),
                        };
                    } else {
                        out.push(b);
                    }
                },
                State::Done => {
                    // Everything after the closing delimiter is ignored.
                },
            }
            i = i + 1;
        }
        proof {
            assert(chunk@.take(chunk@.len() as int) =~= chunk@);
        }
    }

    /// Reports whether the payload was fully delimited. The container must
    /// end in [`State::Done`]; ending anywhere else means the banner, the
    /// opening `:`, or the closing `:` was never found, which this crate
    /// collapses into one unexpected-end-of-stream error.
    pub fn finish(&self) -> (r: Result<(), BinHexError>)
        ensures
            r is Ok <==> self.state is Done,
            r is Err ==> r == Err::<(), BinHexError>(BinHexError::UnexpectedEof),
    {
        match self.state {
            State::Done => Ok(()),
            _ => Err(BinHexError::UnexpectedEof),
        }
    }
}

/// Extracts the whole encoded payload of `source` in one call.
///
/// Returns the payload bytes between the opening and closing `:` with all
/// whitespace removed, or [`BinHexError::UnexpectedEof`] when the banner or
/// either delimiter is missing.
pub fn read_payload(source: &[u8]) -> (r: Result<Vec<u8>, BinHexError>)
    ensures
        r is Ok <==> spec_run(State::FindBannerStart, source@).0 is Done,
        r matches Ok(payload) ==> payload@ == spec_run(State::FindBannerStart, source@).1,
        r is Err ==> r == Err::<Vec<u8>, BinHexError>(BinHexError::UnexpectedEof),
{
    let mut reader = EncodedBinHexReader::new();
    let mut payload: Vec<u8> = Vec::new();
    reader.push(source, &mut payload);
    match reader.finish() {
        Ok(_) => Ok(payload),
        Err(e) => Err(e),
    }
}

} // verus!
