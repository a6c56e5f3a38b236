//! Run-length decompression of the decoded BinHex byte stream.
//!
//! The compressed stream uses `0x90` as a repeat escape: `B 0x90 N` (with
//! `N` in `1..=255`) stands for `N` copies of `B` in all, while the pair
//! `0x90 0x00` stands for a literal `0x90` byte. A run-length byte of zero
//! therefore always reads as the literal escape; there is no separate
//! zero-length run. The expander is a resumable state machine fed one
//! chunk of compressed bytes at a time; it produces the same output no
//! matter how its input is cut into chunks ([`lemma_run_chunked`]).

use vstd::prelude::*;

use crate::binhex::archive::BinHexError;

verus! {

/// The escape byte that introduces a run length.
pub const RLE_ESCAPE: u8 = 0x90;

/// The run-length value that cancels the escape, making it a literal.
pub const CANCEL_ESCAPE: u8 = 0x00;

/// Where the expander stands while walking the compressed stream.
#[derive(Copy, Clone, Debug, PartialEq, Eq, Structural)]
pub enum State {
    /// Copying bytes verbatim, remembering the most recently copied byte as
    /// the candidate for expansion.
    Scan(Option<u8>),
    /// An escape byte has been read; waiting for the run length.
    Escape(Option<u8>),
    /// Emitting the given byte for the given number of remaining copies.
    Expand(u8, usize),
    /// The compressed stream has been fully drained.
    Done,
}

/// What one round of expansion observed.
#[derive(Copy, Clone, Debug)]
pub enum Event {
    /// Output bytes were produced; the count and the last byte are given.
    CopiedBytes(usize, u8),
    /// The escape byte was read.
    FoundEscape,
    /// A run length (already less the copy emitted earlier) was read.
    FoundRunLength(usize),
    /// The compressed stream is exhausted.
    SourceEmpty,
}

/// The pure transition relation of the expander: which state follows from a
/// state and an observed event. Pairs that no well-formed stream can
/// produce are rejected; in particular a run length that arrives before any
/// byte has been copied has nothing to expand.
pub open spec fn spec_advance(s: State, event: Event) -> Result<State, BinHexError> {
    match (s, event) {
        (State::Scan(_), Event::CopiedBytes(_, last)) => Ok(State::Scan(Some(last))),
        (State::Scan(expandable), Event::FoundEscape) => Ok(State::Escape(expandable)),
        (State::Scan(_), Event::SourceEmpty) => Ok(State::Done),
        (State::Escape(_), Event::CopiedBytes(_, last)) => Ok(State::Scan(Some(last))),
        (State::Escape(Some(expandable)), Event::FoundRunLength(run_length)) => Ok(
            State::Expand(expandable, run_length),
        ),
        (State::Expand(byte, run_length), Event::CopiedBytes(copied, _)) => {
            if copied < run_length {
                Ok(State::Expand(byte, (run_length - copied) as usize))
            } else {
                Ok(State::Scan(None))
            }
        },
        _ => Err(BinHexError::InvalidData),
    }
}

impl State {
    /// Steps the state machine by one event.
    pub fn advance(&self, event: Event) -> (r: Result<State, BinHexError>)
        ensures
            r == spec_advance(*self, event),
    {
        match (self, event) {
            (State::Scan(_), Event::CopiedBytes(_, last)) => Ok(State::Scan(Some(last))),
            (State::Scan(expandable), Event::FoundEscape) => Ok(State::Escape(*expandable)),
            (State::Scan(_), Event::SourceEmpty) => Ok(State::Done),
            (State::Escape(_), Event::CopiedBytes(_, last)) => Ok(State::Scan(Some(last))),
            (State::Escape(Some(expandable)), Event::FoundRunLength(run_length)) => Ok(
                State::Expand(*expandable, run_length),
            ),
            (State::Expand(byte, run_length), Event::CopiedBytes(copied, _)) => {
                if copied < *run_length {
                    Ok(State::Expand(*byte, *run_length - copied))
                } else {
                    Ok(State::Scan(None))
                }
            },
            _ => Err(BinHexError::InvalidData),
        }
    }
}

/// States the expander can rest in between chunks. Expansion of a run
/// completes within the chunk that carries its run-length byte, so only
/// scanning and a pending escape persist.
pub open spec fn state_wf(s: State) -> bool {
    s is Scan || s is Escape
}

/// How one compressed byte moves the expander and which output bytes it
/// contributes; `None` when the byte is a run length with nothing before it
/// to repeat.
pub open spec fn spec_step(s: State, b: u8) -> Option<(State, Seq<u8>)> {
    match s {
        State::Scan(last) => {
            if b == RLE_ESCAPE {
                Some((State::Escape(last), Seq::empty()))
            } else {
                Some((State::Scan(Some(b)), seq![b]))
            }
        },
        State::Escape(last) => {
            if b == CANCEL_ESCAPE {
                Some((State::Scan(Some(RLE_ESCAPE)), seq![RLE_ESCAPE]))
            } else {
                match last {
                    Some(expandable) => Some(
                        (State::Scan(None), Seq::new((b - 1) as nat, |i: int| expandable)),
                    ),
                    None => None,
                }
            }
        },
        State::Expand(_, _) => None,
        State::Done => None,
    }
}

/// The expander's behaviour over a whole byte sequence: the state it halts
/// in, the output bytes it emits, and whether it consumed everything
/// (`false` when it stopped at an unresolvable escape).
pub open spec fn spec_run(s: State, input: Seq<u8>) -> (State, Seq<u8>, bool)
    decreases input.len(),
{
    if input.len() == 0 {
        (s, Seq::empty(), true)
    } else {
        match spec_step(s, input[0]) {
            None => (s, Seq::empty(), false),
            Some(first) => {
                let rest = spec_run(first.0, input.drop_first());
                (rest.0, first.1 + rest.1, rest.2)
            },
        }
    }
}

/// One byte keeps the expander in a restable state.
pub proof fn lemma_step_wf(s: State, b: u8)
    requires
        state_wf(s),
        spec_step(s, b) is Some,
    ensures
        state_wf(spec_step(s, b).unwrap().0),
{
}

/// A whole sequence keeps the expander in a restable state.
pub proof fn lemma_run_wf(s: State, input: Seq<u8>)
    requires
        state_wf(s),
    ensures
        state_wf(spec_run(s, input).0),
    decreases input.len(),
{
    if input.len() > 0 {
        match spec_step(s, input[0]) {
            None => {},
            Some(first) => {
                lemma_step_wf(s, input[0]);
                lemma_run_wf(first.0, input.drop_first());
            },
        }
    }
}

/// Feeding the compressed stream in two pieces is the same as feeding it
/// whole: the expander halts in the same state, emits the same output, and
/// fails in the same place. Applied inductively, the expanded stream is
/// byte-identical for every way of cutting the source into chunks, even
/// when an escape straddles two chunks.
pub proof fn lemma_run_chunked(s: State, a: Seq<u8>, b: Seq<u8>)
    ensures
        ({
            let ra = spec_run(s, a);
            let rab = spec_run(s, a + b);
            if ra.2 {
                let rb = spec_run(ra.0, b);
                rab.0 == rb.0 && rab.1 == ra.1 + rb.1 && rab.2 == rb.2
            } else {
                rab.0 == ra.0 && rab.1 == ra.1 && rab.2 == false
            }
        }),
    decreases a.len(),
{
    if a.len() == 0 {
        assert(a + b =~= b);
        assert(spec_run(s, a).1 + spec_run(spec_run(s, a).0, b).1 =~= spec_run(s, b).1);
    } else {
        assert((a + b)[0] == a[0]);
        match spec_step(s, a[0]) {
            None => {
                assert(spec_run(s, a + b).1 =~= spec_run(s, a).1);
            },
            Some(first) => {
                assert((a + b).drop_first() =~= a.drop_first() + b);
                lemma_run_chunked(first.0, a.drop_first(), b);
                let ra_tail = spec_run(first.0, a.drop_first());
                if ra_tail.2 {
                    let rb = spec_run(spec_run(s, a).0, b);
                    assert(first.1 + (ra_tail.1 + rb.1) =~= (first.1 + ra_tail.1) + rb.1);
                } else {
                    assert(spec_run(s, a + b).1 =~= spec_run(s, a).1);
                }
            },
        }
    }
}

/// A run over a sequence that fails at position `i` halts with the state
/// and output accumulated up to `i`.
proof fn lemma_run_halt(s: State, input: Seq<u8>, i: int)
    requires
        0 <= i < input.len(),
        spec_run(s, input.take(i)).2,
        spec_step(spec_run(s, input.take(i)).0, input[i]) is None,
    ensures
        spec_run(s, input).0 == spec_run(s, input.take(i)).0,
        spec_run(s, input).1 == spec_run(s, input.take(i)).1,
        !spec_run(s, input).2,
{
    let head = input.take(i);
    let tail = input.skip(i);
    assert(input =~= head + tail);
    lemma_run_chunked(s, head, tail);
    let mid = spec_run(s, head).0;
    assert(tail[0] == input[i]);
    assert(spec_run(mid, tail).1 =~= Seq::<u8>::empty());
    assert(spec_run(s, head).1 + Seq::<u8>::empty() =~= spec_run(s, head).1);
}

/// A run over a sequence extended by one successfully stepped byte.
proof fn lemma_run_snoc(s: State, t: Seq<u8>, b: u8)
    requires
        spec_run(s, t).2,
        spec_step(spec_run(s, t).0, b) is Some,
    ensures
        spec_run(s, t.push(b)).0 == spec_step(spec_run(s, t).0, b).unwrap().0,
        spec_run(s, t.push(b)).1 == spec_run(s, t).1 + spec_step(spec_run(s, t).0, b).unwrap().1,
        spec_run(s, t.push(b)).2,
{
    assert(t.push(b) =~= t + seq![b]);
    lemma_run_chunked(s, t, seq![b]);
    let mid = spec_run(s, t).0;
    let stepped = spec_step(mid, b).unwrap();
    let empty = Seq::<u8>::empty();
    assert(seq![b][0] == b);
    assert(seq![b].drop_first() =~= empty);
    assert(spec_run(stepped.0, empty) == (stepped.0, empty, true));
    assert(spec_run(mid, seq![b]).0 == stepped.0);
    assert(spec_run(mid, seq![b]).1 =~= stepped.1);
}

/// Expands a run-length-compressed stream delivered in arbitrary chunks.
///
/// Feed compressed bytes with [`push`](Self::push); the expanded bytes
/// accumulate in the caller's sink. Call [`finish`](Self::finish) once the
/// stream is exhausted to learn whether it ended cleanly or inside an
/// escape.
pub struct BinHexExpander {
    /// Where the expansion stands; starts at `Scan(None)`.
    pub state: State,
}

impl BinHexExpander {
    /// An expander that has consumed nothing yet.
    pub fn new() -> (r: Self)
        ensures
            r.state == State::Scan(None::<u8>),
    {
        BinHexExpander { state: State::Scan(None) }
    }

    /// Consumes the next chunk of compressed bytes, appending their
    /// expansion to `out`. Fails with [`BinHexError::InvalidData`] at a run
    /// length that arrives before any expandable byte; everything expanded
    /// before that point has already been appended.
    pub fn push(&mut self, chunk: &[u8], out: &mut Vec<u8>) -> (r: Result<(), BinHexError>)
        requires
            state_wf(old(self).state),
        ensures
            ({
                let run = spec_run(old(self).state, chunk@);
                &&& final(self).state == run.0
                &&& final(out)@ == old(out)@ + run.1
                &&& (r is Ok <==> run.2)
                &&& (r is Err ==> r == Err::<(), BinHexError>(BinHexError::InvalidData))
                &&& state_wf(final(self).state)
            }),
    {
        let ghost s0 = self.state;
        let mut i: usize = 0;
        while i < chunk.len()
            invariant
                i <= chunk@.len(),
                s0 == old(self).state,
                state_wf(self.state),
                spec_run(s0, chunk@.take(i as int)).2,
                self.state == spec_run(s0, chunk@.take(i as int)).0,
                out@ == old(out)@ + spec_run(s0, chunk@.take(i as int)).1,
            decreases chunk@.len() - i,
        {
            let b = chunk[i];
            let ghost prefix = chunk@.take(i as int);
            proof {
                assert(chunk@.take(i + 1) =~= prefix.push(chunk@[i as int]));
            }
            match self.state {
                State::Scan(_) => {
                    proof {
                        lemma_run_snoc(s0, prefix, chunk@[i as int]);
                    }
                    if b == RLE_ESCAPE {
                        self.state = match self.state.advance(Event::FoundEscape) {
                            Ok(s) => s,
                            Err(_) => vstd::pervasive::unreached(),
                        };
                    } else {
                        out.push(b);
                        self.state = match self.state.advance(Event::CopiedBytes(1, b)) {
                            Ok(s) => s,
                            Err(_) => vstd::pervasive::unreached(),
                        };
                    }
                },
                State::Escape(expandable) => {
                    if b == CANCEL_ESCAPE {
                        proof {
                            lemma_run_snoc(s0, prefix, chunk@[i as int]);
                        }
                        out.push(RLE_ESCAPE);
                        self.state = match self.state.advance(
                            Event::CopiedBytes(1, RLE_ESCAPE),
                        ) {
                            Ok(s) => s,
                            Err(_) => vstd::pervasive::unreached(),
                        };
                    } else {
                        match expandable {
                            Some(byte) => {
                                proof {
                                    lemma_run_snoc(s0, prefix, chunk@[i as int]);
                                }
                                // One copy of the byte went out when it was
                                // first scanned, so the run length is one
                                // less than the stored count.
                                let run_length: usize = (b - 1) as usize;
                                self.state = match self.state.advance(
                                    Event::FoundRunLength(run_length),
                                ) {
                                    Ok(s) => s,
                                    Err(_) => vstd::pervasive::unreached(),
                                };
                                let ghost out_before = out@;
                                let mut j: usize = 0;
                                while j < run_length
                                    invariant
                                        j <= run_length,
                                        out@ == out_before + Seq::new(
                                            j as nat,
                                            |k: int| byte,
                                        ),
                                    decreases run_length - j,
                                {
                                    out.push(byte);
                                    proof {
                                        assert(out@ =~= out_before + Seq::new(
                                            (j + 1) as nat,
                                            |k: int| byte,
                                        ));
                                    }
                                    j = j + 1;
                                }
                                self.state = match self.state.advance(
                                    Event::CopiedBytes(run_length, byte),
                                ) {
                                    Ok(s) => s,
                                    Err(_) => vstd::pervasive::unreached(),
                                };
                                proof {
                                    assert(out@ =~= old(out)@ + spec_run(
                                        s0,
                                        chunk@.take(i + 1),
                                    ).1);
                                }
                            },
                            None => {
                                proof {
                                    lemma_run_halt(s0, chunk@, i as int);
                                }
                                return Err(BinHexError::InvalidData);
                            },
                        }
                    }
                },
                State::Expand(_, _) => {
                    proof {
                        assert(false);
                    }
                },
                State::Done => {
                    proof {
                        assert(false);
                    }
                },
            }
            i = i + 1;
        }
        proof {
            assert(chunk@.take(chunk@.len() as int) =~= chunk@);
        }
        Ok(())
    }

    /// Reports whether the compressed stream ended cleanly. Ending while an
    /// escape still waits for its run length is the malformed
    /// trailing-escape case.
    pub fn finish(&self) -> (r: Result<(), BinHexError>)
        requires
            state_wf(self.state),
        ensures
            r is Ok <==> self.state is Scan,
            r is Err ==> r == Err::<(), BinHexError>(BinHexError::InvalidData),
    {
        match self.state {
            State::Scan(_) => Ok(()),
            _ => Err(BinHexError::InvalidData),
        }
    }
}

/// Expands a whole compressed stream in one call.
///
/// Returns the expanded bytes, or [`BinHexError::InvalidData`] when the
/// stream contains a run length with nothing to repeat or ends inside an
/// escape.
pub fn expand_all(compressed: &[u8]) -> (r: Result<Vec<u8>, BinHexError>)
    ensures
        ({
            let run = spec_run(State::Scan(None::<u8>), compressed@);
            &&& (r is Ok <==> (run.2 && run.0 is Scan))
            &&& (r matches Ok(expanded) ==> expanded@ == run.1)
            &&& (r is Err ==> r == Err::<Vec<u8>, BinHexError>(BinHexError::InvalidData))
        }),
{
    let mut expander = BinHexExpander::new();
    let mut expanded: Vec<u8> = Vec::new();
    match expander.push(compressed, &mut expanded) {
        Ok(_) => {},
        Err(e) => {
            return Err(e);
        },
    }
    match expander.finish() {
        Ok(_) => Ok(expanded),
        Err(e) => Err(e),
    }
}

} // verus!
