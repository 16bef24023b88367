//! Driving an [`ItemEncoder`] or a framer over a stream.
//!
//! Waiting for the next item or the next bytes is the caller's part. What to do with them, and
//! what to do next, is decided here.

use crate::error::StreamError;
use crate::format::{Call, FrameParser, ItemEncoder};
use crate::octets::{buffer_len, empty_buffer, freeze, held, octets};
use bytes::{Bytes, BytesMut};
use vstd::prelude::*;

verus! {

/// Where an encode run has got to.
///
/// The epilogue is reachable only from a clean end of the item stream. After an error the run
/// jumps straight to `Done`, because a body that stopped early must not be closed with a
/// well-formed terminator: a truncated JSON array ending in `]` would parse as complete and
/// silently lose items.
#[derive(Clone, Copy, Debug, PartialEq, Eq, Structural)]
pub enum Phase {
    /// Nothing has been written.
    Prologue,
    /// Items are being written.
    Items,
    /// The items have ended.
    Epilogue,
    /// The body is complete, or has failed.
    Done,
}

/// What happens next in an encode run.
pub enum Outcome {
    /// The encoder wrote these bytes.
    Wrote(Seq<u8>),
    /// The encoder, or the source of the items, failed.
    Failed(StreamError),
    /// The source has no more items.
    Ended,
}

/// How far an encode run is.
pub struct Stage {
    pub phase: Phase,
    /// The index of the next item.
    pub index: u64,
}

/// The chunk that is yielded for bytes that were written. Empty chunks are swallowed rather than
/// yielded, so a format with no prologue or epilogue does not emit zero-length frames.
pub open spec fn chunk_of(bytes: Seq<u8>) -> Option<Result<Seq<u8>, StreamError>> {
    if bytes.len() == 0 {
        None
    } else {
        Some(Ok(bytes))
    }
}

impl Stage {
    /// The start of a run.
    pub open spec fn start() -> Stage {
        Stage { phase: Phase::Prologue, index: 0 }
    }

    /// The end of a run.
    pub open spec fn done(self) -> Stage {
        Stage { phase: Phase::Done, ..self }
    }

    /// The stage after `outcome`, and what is yielded for it.
    pub open spec fn after(self, outcome: Outcome) -> (
        Stage,
        Option<Result<Seq<u8>, StreamError>>,
    ) {
        match (self.phase, outcome) {
            (Phase::Done, _) => (self, None),
            (_, Outcome::Failed(error)) => (self.done(), Some(Err(error))),
            (Phase::Items, Outcome::Ended) => (Stage { phase: Phase::Epilogue, ..self }, None),
            (_, Outcome::Ended) => (self, None),
            (Phase::Prologue, Outcome::Wrote(bytes)) => (
                Stage { phase: Phase::Items, ..self },
                chunk_of(bytes),
            ),
            (Phase::Items, Outcome::Wrote(bytes)) => (
                Stage { index: (self.index + 1) as u64, ..self },
                chunk_of(bytes),
            ),
            (Phase::Epilogue, Outcome::Wrote(bytes)) => (self.done(), chunk_of(bytes)),
        }
    }
}

/// What a call of an encoder with an empty buffer came to.
pub open spec fn outcome_of<E>(call: Call<E>) -> Outcome {
    match call.result {
        Ok(_) => Outcome::Wrote(call.buffer_after),
        Err(error) => Outcome::Failed(error),
    }
}

/// Whether `chunk` is the bytes, or the failure, that is to be yielded.
pub open spec fn yields(
    chunk: Option<Result<Bytes, StreamError>>,
    due: Option<Result<Seq<u8>, StreamError>>,
) -> bool {
    match due {
        None => chunk is None,
        Some(Ok(bytes)) => chunk matches Some(Ok(chunk)) && octets(chunk) == bytes,
        Some(Err(error)) => chunk == Some(Err::<Bytes, StreamError>(error)),
    }
}

/// What the driver of an encode run has to do next.
#[derive(Debug)]
pub enum Action {
    /// Yield this, then go on.
    Yield(Result<Bytes, StreamError>),
    /// Get the next item from the source, and hand it to [`EncodeState::supply`].
    Pull,
    /// End the body.
    Stop,
}

impl Action {
    /// To yield what is due, or else what `phase` asks for.
    pub open spec fn is_due(self, due: Option<Result<Seq<u8>, StreamError>>, phase: Phase) -> bool {
        match self {
            Action::Yield(chunk) => yields(Some(chunk), due),
            Action::Pull => due is None && phase == Phase::Items,
            Action::Stop => due is None && phase == Phase::Done,
        }
    }
}

/// An encode run.
#[derive(Debug)]
pub struct EncodeState<ENC> {
    encoder: ENC,
    index: u64,
    phase: Phase,
}

/// The chunk for what an encoder call left behind, if there is one.
fn settle(result: Result<(), StreamError>, buf: BytesMut) -> (chunk: Option<
    Result<Bytes, StreamError>,
>)
    ensures
        match result {
            Ok(_) => yields(chunk, chunk_of(held(buf))),
            Err(error) => chunk == Some(Err::<Bytes, StreamError>(error)),
        },
{
    match result {
        Err(error) => Some(Err(error)),
        Ok(()) => if buffer_len(&buf) > 0 {
            Some(Ok(freeze(buf)))
        } else {
            None
        },
    }
}

impl<ENC> EncodeState<ENC> {
    /// How far the run is.
    pub closed spec fn stage(self) -> Stage {
        Stage { phase: self.phase, index: self.index }
    }

    /// The encoder as it is now.
    pub closed spec fn encoder(self) -> ENC {
        self.encoder
    }

    /// Whether `call` is the next one of the encoder, on an empty buffer, and takes the run to
    /// `after`.
    pub open spec fn calls(self, call: Call<ENC>, after: Self) -> bool {
        &&& call.encoder == self.encoder()
        &&& call.buffer == Seq::<u8>::empty()
        &&& call.encoder_after == after.encoder()
        &&& after.stage() == self.stage().after(outcome_of(call)).0
    }

    /// A run that has written nothing yet.
    pub fn new(encoder: ENC) -> (state: Self)
        ensures
            state.stage() == Stage::start(),
            state.encoder() == encoder,
    {
        EncodeState { encoder, index: 0, phase: Phase::Prologue }
    }

    /// Goes on as far as that takes no item, and says what to do next.
    pub fn advance<T>(&mut self) -> (action: Action) where ENC: ItemEncoder<T>
        ensures
            match old(self).stage().phase {
                Phase::Prologue => exists|call: Call<ENC>| #[trigger]
                    old(self).calls(call, *final(self)) && ENC::opens(call) && action.is_due(
                        old(self).stage().after(outcome_of(call)).1,
                        Phase::Items,
                    ),
                Phase::Epilogue => exists|call: Call<ENC>| #[trigger]
                    old(self).calls(call, *final(self)) && ENC::closes(call) && action.is_due(
                        old(self).stage().after(outcome_of(call)).1,
                        Phase::Done,
                    ),
                phase => {
                    &&& final(self).stage() == old(self).stage()
                    &&& final(self).encoder() == old(self).encoder()
                    &&& action.is_due(None, phase)
                },
            },
    {
        match self.phase {
            Phase::Prologue => {
                let mut buf = empty_buffer();
                let result = self.encoder.prologue(&mut buf);
                let ghost call = Call {
                    encoder: old(self).encoder,
                    buffer: Seq::<u8>::empty(),
                    encoder_after: self.encoder,
                    buffer_after: held(buf),
                    result,
                };
                self.phase = if result.is_ok() {
                    Phase::Items
                } else {
                    Phase::Done
                };
                assert(old(self).calls(call, *self));
                match settle(result, buf) {
                    Some(chunk) => Action::Yield(chunk),
                    None => Action::Pull,
                }
            },
            Phase::Items => Action::Pull,
            Phase::Epilogue => {
                let mut buf = empty_buffer();
                let result = self.encoder.epilogue(&mut buf);
                let ghost call = Call {
                    encoder: old(self).encoder,
                    buffer: Seq::<u8>::empty(),
                    encoder_after: self.encoder,
                    buffer_after: held(buf),
                    result,
                };
                self.phase = Phase::Done;
                assert(old(self).calls(call, *self));
                match settle(result, buf) {
                    Some(chunk) => Action::Yield(chunk),
                    None => Action::Stop,
                }
            },
            Phase::Done => Action::Stop,
        }
    }

    /// Takes the next item from the source, the source's failure, or its end, and returns what is
    /// to be yielded for it.
    ///
    /// The source's own error is forwarded verbatim, so that every error in the pipeline surfaces
    /// at exactly one place downstream.
    pub fn supply<T>(&mut self, next: Option<Result<T, StreamError>>) -> (chunk: Option<
        Result<Bytes, StreamError>,
    >) where ENC: ItemEncoder<T>
        requires
            old(self).stage().phase == Phase::Items,
            old(self).stage().index < u64::MAX,
            next matches Some(Ok(item)) ==> ENC::takes(item),
        ensures
            match next {
                Some(Ok(item)) => exists|call: Call<ENC>| #[trigger]
                    old(self).calls(call, *final(self)) && ENC::encodes(
                        call,
                        item,
                        old(self).stage().index,
                    ) && yields(chunk, old(self).stage().after(outcome_of(call)).1),
                Some(Err(error)) => {
                    let (stage, due) = old(self).stage().after(Outcome::Failed(error));
                    &&& final(self).stage() == stage
                    &&& final(self).encoder() == old(self).encoder()
                    &&& yields(chunk, due)
                },
                None => {
                    let (stage, due) = old(self).stage().after(Outcome::Ended);
                    &&& final(self).stage() == stage
                    &&& final(self).encoder() == old(self).encoder()
                    &&& yields(chunk, due)
                },
            },
    {
        match next {
            Some(Ok(item)) => {
                let mut buf = empty_buffer();
                let index: u64 = self.index;
                let result = self.encoder.encode(item, index, &mut buf);
                let ghost call = Call {
                    encoder: old(self).encoder,
                    buffer: Seq::<u8>::empty(),
                    encoder_after: self.encoder,
                    buffer_after: held(buf),
                    result,
                };
                if result.is_ok() {
                    self.index = index + 1;
                } else {
                    self.phase = Phase::Done;
                }
                assert(old(self).calls(call, *self));
                settle(result, buf)
            },
            Some(Err(error)) => {
                self.phase = Phase::Done;
                Some(Err(error))
            },
            None => {
                self.phase = Phase::Epilogue;
                None
            },
        }
    }
}

/// Whether `item` is what [`parse_frame`] may make of `framed`.
pub open spec fn reports<F, T, P: FrameParser<F, T>>(
    parser: P,
    framed: Result<F, StreamError>,
    item: Result<T, StreamError>,
) -> bool {
    match framed {
        Ok(frame) => parser.parses(frame, item),
        Err(error) => item == Err::<T, StreamError>(error),
    }
}

/// What is yielded for one frame, or for the framer's failure.
///
/// Framing errors and per-record deserialisation errors come out of one stream, but the
/// difference stays observable: after a framing error the framer ends the stream, after a
/// deserialisation error it continues with the next record.
pub fn parse_frame<F, T, P: FrameParser<F, T>>(parser: &P, framed: Result<F, StreamError>) -> (item:
    Result<T, StreamError>)
    ensures
        reports(*parser, framed, item),
{
    match framed {
        Ok(frame) => parser.parse(frame),
        Err(error) => Err(error),
    }
}

/// What a framer hands over of what it finds: a failure is the last.
pub open spec fn handed_over<F>(framed: Seq<Result<F, StreamError>>) -> Seq<Result<F, StreamError>>
    decreases framed.len(),
{
    if framed.len() == 0 {
        framed
    } else if framed[0] is Err {
        seq![framed[0]]
    } else {
        seq![framed[0]] + handed_over(framed.drop_first())
    }
}

/// Whether `items` are what a decode run yields, where the framer finds `framed`.
pub open spec fn decoded<F, T, P: FrameParser<F, T>>(
    parser: P,
    framed: Seq<Result<F, StreamError>>,
    items: Seq<Result<T, StreamError>>,
) -> bool {
    &&& items.len() == handed_over(framed).len()
    &&& forall|i: int|
        0 <= i < items.len() ==> reports(parser, handed_over(framed)[i], #[trigger] items[i])
}

proof fn handed_over_up_to<F>(framed: Seq<Result<F, StreamError>>, n: int)
    requires
        0 <= n <= framed.len(),
        forall|i: int| 0 <= i < n ==> #[trigger] framed[i] is Ok,
        n < framed.len() ==> framed[n] is Err,
    ensures
        handed_over(framed) == (if n < framed.len() {
            framed.take(n + 1)
        } else {
            framed
        }),
    decreases framed.len(),
{
    if framed.len() > 0 && n > 0 {
        let rest = framed.drop_first();
        assert(framed[0] is Ok);
        assert forall|i: int| 0 <= i < n - 1 implies #[trigger] rest[i] is Ok by {
            assert(rest[i] == framed[i + 1]);
        }
        handed_over_up_to(rest, n - 1);
        assert(seq![framed[0]] + rest == framed);
        if n < framed.len() {
            assert(seq![framed[0]] + rest.take(n) == framed.take(n + 1));
        }
    } else if framed.len() > 0 {
        assert(framed.take(1) == seq![framed[0]]);
    }
}

/// A decode run yields what the parser makes of each frame, in order. A frame that cannot be
/// parsed does not end it; the framer's own failure is yielded as it is, and is the last.
///
/// `n` is how many frames there are before the framer fails, or in all.
pub proof fn law_decode_run<F, T, P: FrameParser<F, T>>(
    parser: P,
    framed: Seq<Result<F, StreamError>>,
    items: Seq<Result<T, StreamError>>,
    n: int,
)
    requires
        decoded(parser, framed, items),
        0 <= n <= framed.len(),
        forall|i: int| 0 <= i < n ==> #[trigger] framed[i] is Ok,
        n < framed.len() ==> framed[n] is Err,
    ensures
        items.len() == n + (if n < framed.len() {
            1int
        } else {
            0
        }),
        forall|i: int| 0 <= i < n ==> parser.parses(framed[i]->Ok_0, #[trigger] items[i]),
        n < framed.len() ==> items[n] == Err::<T, StreamError>(framed[n]->Err_0),
{
    handed_over_up_to(framed, n);
    assert forall|i: int| 0 <= i < n implies parser.parses(
        framed[i]->Ok_0,
        #[trigger] items[i],
    ) by {
        assert(reports(parser, handed_over(framed)[i], items[i]));
        assert(handed_over(framed)[i] == framed[i]);
    }
    if n < framed.len() {
        assert(reports(parser, handed_over(framed)[n], items[n]));
    }
}

/// Everything that is yielded over a run, from `stage` on.
pub open spec fn yielded(stage: Stage, outcomes: Seq<Outcome>) -> Seq<Result<Seq<u8>, StreamError>>
    decreases outcomes.len(),
{
    if outcomes.len() == 0 {
        seq![]
    } else {
        let (next, due) = stage.after(outcomes[0]);
        let rest = yielded(next, outcomes.drop_first());
        match due {
            Some(chunk) => seq![chunk] + rest,
            None => rest,
        }
    }
}

/// The stage that a run ends in.
pub open spec fn reached(stage: Stage, outcomes: Seq<Outcome>) -> Stage
    decreases outcomes.len(),
{
    if outcomes.len() == 0 {
        stage
    } else {
        reached(stage.after(outcomes[0]).0, outcomes.drop_first())
    }
}

/// The bytes of the chunks that are no failures, put together.
pub open spec fn body_of(chunks: Seq<Result<Seq<u8>, StreamError>>) -> Seq<u8>
    decreases chunks.len(),
{
    if chunks.len() == 0 {
        seq![]
    } else {
        let rest = body_of(chunks.drop_first());
        match chunks[0] {
            Ok(bytes) => bytes + rest,
            Err(_) => rest,
        }
    }
}

/// The outcomes of writing `pieces`, one after the other.
pub open spec fn written(pieces: Seq<Seq<u8>>) -> Seq<Outcome> {
    pieces.map_values(|bytes: Seq<u8>| Outcome::Wrote(bytes))
}

/// A run is yielded the same way whether it is looked at in one go or in two parts.
proof fn run_in_parts(stage: Stage, first: Seq<Outcome>, second: Seq<Outcome>)
    ensures
        yielded(stage, first + second) == yielded(stage, first) + yielded(
            reached(stage, first),
            second,
        ),
        reached(stage, first + second) == reached(reached(stage, first), second),
    decreases first.len(),
{
    if first.len() == 0 {
        assert(first + second == second);
        assert(yielded(stage, first) + yielded(stage, second) == yielded(stage, second));
    } else {
        let (next, due) = stage.after(first[0]);
        assert((first + second).drop_first() == first.drop_first() + second);
        run_in_parts(next, first.drop_first(), second);
        if let Some(chunk) = due {
            assert(seq![chunk] + (yielded(next, first.drop_first()) + yielded(
                reached(stage, first),
                second,
            )) == yielded(stage, first) + yielded(reached(stage, first), second));
        }
    }
}

proof fn body_in_parts(
    first: Seq<Result<Seq<u8>, StreamError>>,
    second: Seq<Result<Seq<u8>, StreamError>>,
)
    ensures
        body_of(first + second) == body_of(first) + body_of(second),
    decreases first.len(),
{
    if first.len() == 0 {
        assert(first + second == second);
        assert(body_of(first) + body_of(second) == body_of(second));
    } else {
        assert((first + second).drop_first() == first.drop_first() + second);
        body_in_parts(first.drop_first(), second);
        let rest = body_of(first.drop_first());
        if let Ok(bytes) = first[0] {
            assert(bytes + (rest + body_of(second)) == (bytes + rest) + body_of(second));
        }
    }
}

/// Whether every chunk is bytes, and none of them empty.
pub open spec fn all_written(chunks: Seq<Result<Seq<u8>, StreamError>>) -> bool {
    forall|i: int|
        0 <= i < chunks.len() ==> (#[trigger] chunks[i] matches Ok(bytes) && bytes.len() > 0)
}

proof fn items_run(index: u64, pieces: Seq<Seq<u8>>)
    requires
        index + pieces.len() <= u64::MAX,
    ensures
        reached(Stage { phase: Phase::Items, index }, written(pieces)) == (Stage {
            phase: Phase::Items,
            index: (index + pieces.len()) as u64,
        }),
        body_of(yielded(Stage { phase: Phase::Items, index }, written(pieces)))
            == pieces.flatten(),
        all_written(yielded(Stage { phase: Phase::Items, index }, written(pieces))),
    decreases pieces.len(),
{
    if pieces.len() > 0 {
        let stage = Stage { phase: Phase::Items, index };
        let rest = pieces.drop_first();
        assert(written(pieces).drop_first() == written(rest));
        items_run((index + 1) as u64, rest);
        let (next, due) = stage.after(written(pieces)[0]);
        let chunks = yielded(next, written(rest));
        assert(pieces.flatten() == pieces[0] + rest.flatten());
        if pieces[0].len() > 0 {
            assert((seq![Ok::<Seq<u8>, StreamError>(pieces[0])] + chunks).drop_first() == chunks);
        } else {
            assert(pieces.flatten() == rest.flatten());
        }
    }
}

proof fn items_after_prologue(prologue: Seq<u8>, items: Seq<Seq<u8>>)
    requires
        items.len() <= u64::MAX,
    ensures
        reached(Stage::start(), seq![Outcome::Wrote(prologue)] + written(items)) == (Stage {
            phase: Phase::Items,
            index: items.len() as u64,
        }),
        body_of(yielded(Stage::start(), seq![Outcome::Wrote(prologue)] + written(items)))
            == prologue + items.flatten(),
        all_written(yielded(Stage::start(), seq![Outcome::Wrote(prologue)] + written(items))),
{
    let opening = seq![Outcome::Wrote(prologue)];
    let start = Stage::start();
    reveal_with_fuel(yielded, 2);
    reveal_with_fuel(reached, 2);
    reveal_with_fuel(body_of, 2);
    assert(opening.drop_first() == Seq::<Outcome>::empty());
    run_in_parts(start, opening, written(items));
    items_run(0, items);
    let first = yielded(start, opening);
    let rest = yielded(reached(start, opening), written(items));
    body_in_parts(first, rest);
    assert(body_of(first) == prologue);
}

/// A run in which nothing fails yields the prologue, the items in order and the epilogue, and
/// never an empty chunk.
pub proof fn law_clean_run(prologue: Seq<u8>, items: Seq<Seq<u8>>, epilogue: Seq<u8>)
    requires
        items.len() <= u64::MAX,
    ensures
        ({
            let outcomes = seq![Outcome::Wrote(prologue)] + written(items) + seq![
                Outcome::Ended,
                Outcome::Wrote(epilogue),
            ];
            let chunks = yielded(Stage::start(), outcomes);
            &&& all_written(chunks)
            &&& body_of(chunks) == prologue + items.flatten() + epilogue
            &&& reached(Stage::start(), outcomes).phase == Phase::Done
        }),
{
    let opening = seq![Outcome::Wrote(prologue)] + written(items);
    let closing = seq![Outcome::Ended, Outcome::Wrote(epilogue)];
    let start = Stage::start();
    items_after_prologue(prologue, items);
    run_in_parts(start, opening, closing);
    reveal_with_fuel(yielded, 3);
    reveal_with_fuel(reached, 3);
    reveal_with_fuel(body_of, 2);
    assert(closing.drop_first() == seq![Outcome::Wrote(epilogue)]);
    assert(closing.drop_first().drop_first() == Seq::<Outcome>::empty());
    let first = yielded(start, opening);
    let rest = yielded(reached(start, opening), closing);
    body_in_parts(first, rest);
    assert(body_of(rest) == epilogue);
}

/// A run that fails yields what was written before the failure, then the failure, and nothing
/// behind it: no epilogue closes a body that was cut short.
pub proof fn law_failed_run(
    prologue: Seq<u8>,
    items: Seq<Seq<u8>>,
    error: StreamError,
    later: Seq<Outcome>,
)
    requires
        items.len() <= u64::MAX,
    ensures
        ({
            let outcomes = seq![Outcome::Wrote(prologue)] + written(items) + (seq![
                Outcome::Failed(error),
            ] + later);
            let chunks = yielded(Stage::start(), outcomes);
            &&& chunks.len() > 0
            &&& chunks.last() == Err::<Seq<u8>, StreamError>(error)
            &&& all_written(chunks.drop_last())
            &&& body_of(chunks) == prologue + items.flatten()
            &&& reached(Stage::start(), outcomes).phase == Phase::Done
        }),
{
    let opening = seq![Outcome::Wrote(prologue)] + written(items);
    let closing = seq![Outcome::Failed(error)] + later;
    let start = Stage::start();
    let middle = reached(start, opening);
    items_after_prologue(prologue, items);
    run_in_parts(start, opening, closing);
    assert(closing.drop_first() == later);
    law_nothing_after_the_end(middle.done(), later);
    let first = yielded(start, opening);
    let rest = yielded(middle, closing);
    assert(rest == seq![Err::<Seq<u8>, StreamError>(error)]);
    body_in_parts(first, rest);
    reveal_with_fuel(body_of, 2);
    assert(body_of(rest) == Seq::<u8>::empty());
    assert((first + rest).drop_last() == first);
}

/// Once a run is done nothing is yielded any more.
pub proof fn law_nothing_after_the_end(stage: Stage, later: Seq<Outcome>)
    requires
        stage.phase == Phase::Done,
    ensures
        yielded(stage, later) == Seq::<Result<Seq<u8>, StreamError>>::empty(),
        reached(stage, later) == stage,
    decreases later.len(),
{
    if later.len() > 0 {
        law_nothing_after_the_end(stage, later.drop_first());
    }
}

/// Every item is encoded with its own index: how many items were encoded ahead of it, whatever they
/// were encoded as.
pub proof fn law_items_are_counted(prologue: Seq<u8>, items: Seq<Seq<u8>>)
    requires
        items.len() <= u64::MAX,
    ensures
        reached(Stage::start(), seq![Outcome::Wrote(prologue)] + written(items)) == (Stage {
            phase: Phase::Items,
            index: items.len() as u64,
        }),
        Stage::start().phase == Phase::Prologue,
        Stage::start().index == 0,
{
    items_after_prologue(prologue, items);
}

/// What a call of an encoder on an empty buffer wrote is what is yielded for it, and nothing where
/// it wrote nothing; a failure is yielded as it is, and what was written ahead of it is not.
pub proof fn law_what_is_yielded<E>(stage: Stage, call: Call<E>)
    requires
        stage.phase != Phase::Done,
        stage.index < u64::MAX,
    ensures
        ({
            let (after, due) = stage.after(outcome_of(call));
            match call.result {
                Ok(_) => {
                    &&& call.buffer_after.len() == 0 ==> due is None
                    &&& call.buffer_after.len() > 0 ==> due == Some(
                        Ok::<Seq<u8>, StreamError>(call.buffer_after),
                    )
                    &&& stage.phase == Phase::Prologue ==> after.phase == Phase::Items
                        && after.index == stage.index
                    &&& stage.phase == Phase::Items ==> after.phase == Phase::Items && after.index
                        == stage.index + 1
                    &&& stage.phase == Phase::Epilogue ==> after.phase == Phase::Done
                },
                Err(error) => {
                    &&& due == Some(Err::<Seq<u8>, StreamError>(error))
                    &&& after.phase == Phase::Done
                },
            }
        }),
{
}

/// The epilogue is written where the items end cleanly, and nowhere else.
pub proof fn law_only_a_clean_end_is_closed(stage: Stage, outcome: Outcome)
    requires
        stage.phase != Phase::Epilogue,
    ensures
        stage.after(outcome).0.phase == Phase::Epilogue <==> stage.phase == Phase::Items && outcome
            is Ended,
        stage.phase == Phase::Items && outcome is Ended ==> stage.after(outcome).1 is None,
{
}

} // verus!
