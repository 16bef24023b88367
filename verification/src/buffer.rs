//! Coalescing small encoded chunks into larger ones.
//!
//! Without this, a format whose items are small (JSON Lines of short objects, say) emits one
//! HTTP frame per item, which is dreadful wire efficiency. It matters on the sending side in
//! both directions: a client uploading a stream has exactly the same problem as a server
//! returning one.
//!
//! Waiting for chunks is the caller's part, and so is wrapping them in whatever frame type the
//! HTTP layer wants.

use crate::octets::{
    buffer_len, buffer_with_capacity, bytes_slice, clear, empty_buffer, extend, freeze, held,
    octets, split, split_to,
};
use bytes::{Bytes, BytesMut};
use vstd::prelude::*;

verus! {

/// The chunks of a batch put together, up to the first failure.
pub open spec fn batch_bytes<E>(batch: Seq<Result<Bytes, E>>) -> Result<Seq<u8>, E>
    decreases batch.len(),
{
    if batch.len() == 0 {
        Ok(seq![])
    } else {
        match batch_bytes(batch.drop_last()) {
            Err(error) => Err(error),
            Ok(bytes) => match batch.last() {
                Ok(chunk) => Ok(bytes + octets(chunk)),
                Err(error) => Err(error),
            },
        }
    }
}

proof fn batch_fails_at<E>(batch: Seq<Result<Bytes, E>>, i: int)
    requires
        0 <= i < batch.len(),
        batch_bytes(batch.take(i)) is Ok,
        batch[i] is Err,
    ensures
        batch_bytes(batch) == Err::<Seq<u8>, E>(batch[i]->Err_0),
    decreases batch.len(),
{
    assert(batch.take(i + 1).drop_last() == batch.take(i));
    if i + 1 == batch.len() {
        assert(batch.take(i + 1) == batch);
    } else {
        assert(batch.drop_last().take(i) == batch.take(i));
        batch_fails_at(batch.drop_last(), i);
    }
}

/// Coalesces the chunks that are ready at the same time into one. A failure among them takes the
/// place of the batch.
pub fn coalesce_ready<E>(batch: Vec<Result<Bytes, E>>) -> (chunk: Result<Bytes, E>)
    ensures
        match batch_bytes(batch@) {
            Ok(bytes) => chunk matches Ok(chunk) && octets(chunk) == bytes,
            Err(error) => chunk == Err::<Bytes, E>(error),
        },
{
    let ghost chunks = batch@;
    let mut buf = empty_buffer();
    assert(chunks.take(0) == Seq::<Result<Bytes, E>>::empty());
    for next in ready: batch
        invariant
            ready.seq() == chunks,
            batch_bytes(chunks.take(ready.index())) == Ok::<Seq<u8>, E>(held(buf)),
    {
        let ghost i = ready.index();
        match next {
            Ok(chunk) => {
                extend(&mut buf, bytes_slice(&chunk));
                assert(chunks.take(i + 1).drop_last() == chunks.take(i));
            },
            Err(error) => {
                proof {
                    batch_fails_at(chunks, i);
                }
                return Err(error);
            },
        }
    }
    assert(chunks.take(chunks.len() as int) == chunks);
    Ok(freeze(buf))
}

/// `bytes` cut into pieces of `size`, without what is left over.
pub open spec fn pieces(bytes: Seq<u8>, size: nat) -> Seq<Seq<u8>>
    decreases bytes.len(),
{
    if size == 0 || bytes.len() < size {
        seq![]
    } else {
        seq![bytes.take(size as int)] + pieces(bytes.skip(size as int), size)
    }
}

/// What is left over of `bytes` once it is cut into pieces of `size`.
pub open spec fn remainder(bytes: Seq<u8>, size: nat) -> Seq<u8>
    decreases bytes.len(),
{
    if size == 0 || bytes.len() < size {
        bytes
    } else {
        remainder(bytes.skip(size as int), size)
    }
}

/// What a [`BytesBuffer`] holds back.
pub struct Held {
    /// How long the chunks are.
    pub size: nat,
    /// The bytes that no chunk was made of yet.
    pub pending: Seq<u8>,
    /// A failure has passed through.
    pub errored: bool,
}

/// What comes out for one thing that goes in.
pub enum Coalesced<E> {
    /// These chunks.
    Chunks(Seq<Seq<u8>>),
    /// The failure that went in.
    Failure(E),
    /// The end.
    End,
}

impl Held {
    /// What comes out for bytes that go in.
    pub open spec fn take_in<E>(self, next: Result<Seq<u8>, E>) -> (Held, Coalesced<E>) {
        if self.errored {
            (self, Coalesced::End)
        } else {
            match next {
                Err(error) => (
                    Held { pending: seq![], errored: true, ..self },
                    Coalesced::Failure(error),
                ),
                Ok(bytes) => (
                    Held { pending: remainder(self.pending + bytes, self.size), ..self },
                    Coalesced::Chunks(pieces(self.pending + bytes, self.size)),
                ),
            }
        }
    }

    /// What comes out at the end: whatever is left over, if anything is.
    pub open spec fn last(self) -> Seq<Seq<u8>> {
        if self.pending.len() == 0 {
            seq![]
        } else {
            seq![self.pending]
        }
    }
}

/// The bytes of a chunk that may be a failure.
pub open spec fn contents<E>(chunk: Result<Bytes, E>) -> Result<Seq<u8>, E> {
    match chunk {
        Ok(bytes) => Ok(octets(bytes)),
        Err(error) => Err(error),
    }
}

/// Whether `chunks` is what is to come out.
pub open spec fn comes_out<E>(chunks: Option<Vec<Result<Bytes, E>>>, due: Coalesced<E>) -> bool {
    match due {
        Coalesced::End => chunks is None,
        Coalesced::Failure(error) => chunks matches Some(chunks) && chunks@ == seq![
            Err::<Bytes, E>(error),
        ],
        Coalesced::Chunks(pieces) => chunks matches Some(chunks) && same_chunks(chunks@, pieces),
    }
}

/// Whether each chunk is the piece of the same index.
pub open spec fn same_chunks<E>(chunks: Seq<Result<Bytes, E>>, pieces: Seq<Seq<u8>>) -> bool {
    &&& chunks.len() == pieces.len()
    &&& forall|i: int|
        0 <= i < chunks.len() ==> contents(#[trigger] chunks[i]) == Ok::<Seq<u8>, E>(pieces[i])
}

/// Coalesces output into chunks of a given size. The final chunk is whatever is left over, and
/// may be shorter.
#[derive(Debug)]
pub struct BytesBuffer {
    size: usize,
    current_buffer: BytesMut,
    errored: bool,
}

impl View for BytesBuffer {
    type V = Held;

    closed spec fn view(&self) -> Held {
        Held {
            size: self.size as nat,
            pending: held(self.current_buffer),
            errored: self.errored,
        }
    }
}

impl BytesBuffer {
    /// A buffer that makes chunks of `size` bytes, of at least one byte.
    pub fn new(size: usize) -> (buffer: Self)
        requires
            size <= isize::MAX,
        ensures
            buffer@ == (Held {
                size: if size == 0 {
                    1
                } else {
                    size as nat
                },
                pending: seq![],
                errored: false,
            }),
    {
        // A zero size would never shrink the buffer.
        let size: usize = if size == 0 {
            1
        } else {
            size
        };
        BytesBuffer { size, current_buffer: buffer_with_capacity(size), errored: false }
    }

    /// Takes the next chunk in, and returns what comes out for it: nothing once a failure has
    /// passed through.
    ///
    /// A failure is passed on instead of ending the body: ending it would make a failure
    /// indistinguishable from a clean end, and the receiver would silently accept a truncated
    /// body. Buffered bytes are dropped, so no data can follow the failure.
    pub fn push<E>(&mut self, next: Result<Bytes, E>) -> (chunks: Option<Vec<Result<Bytes, E>>>)
        requires
            old(self)@.size > 0,
        ensures
            final(self)@ == old(self)@.take_in(contents(next)).0,
            comes_out(chunks, old(self)@.take_in(contents(next)).1),
    {
        if self.errored {
            return None;
        }
        let mut chunks: Vec<Result<Bytes, E>> = Vec::new();
        match next {
            Err(error) => {
                self.errored = true;
                clear(&mut self.current_buffer);
                chunks.push(Err(error));
            },
            Ok(bytes) => {
                extend(&mut self.current_buffer, bytes_slice(&bytes));
                let ghost all = held(self.current_buffer);
                let size: usize = self.size;
                assert(same_chunks(chunks@, seq![]));
                let ghost mut done: Seq<Seq<u8>> = seq![];
                assert(done + pieces(all, size as nat) == pieces(all, size as nat));
                while buffer_len(&self.current_buffer) >= size
                    invariant
                        size == self.size > 0,
                        self.size == old(self).size,
                        self.errored == old(self).errored,
                        same_chunks(chunks@, done),
                        pieces(all, size as nat) == done + pieces(
                            held(self.current_buffer),
                            size as nat,
                        ),
                        remainder(all, size as nat) == remainder(
                            held(self.current_buffer),
                            size as nat,
                        ),
                    decreases held(self.current_buffer).len(),
                {
                    let ghost before = held(self.current_buffer);
                    let front = freeze(split_to(&mut self.current_buffer, size));
                    chunks.push(Ok(front));
                    proof {
                        let piece = before.take(size as int);
                        assert(done + (seq![piece] + pieces(before.skip(size as int), size as nat))
                            == (done + seq![piece]) + pieces(
                            before.skip(size as int),
                            size as nat,
                        ));
                        done = done + seq![piece];
                    }
                }
                assert(done + Seq::<Seq<u8>>::empty() == done);
            },
        }
        Some(chunks)
    }

    /// Hands out whatever is still buffered, at the end of the input.
    ///
    /// Where nothing is, nothing comes out: an empty chunk would be appended whenever the input
    /// divided evenly into `size`, or was empty.
    pub fn flush(&mut self) -> (rest: Option<Bytes>)
        ensures
            final(self)@ == (Held { pending: seq![], ..old(self)@ }),
            match rest {
                Some(chunk) => old(self)@.last() == seq![octets(chunk)],
                None => old(self)@.last() == Seq::<Seq<u8>>::empty(),
            },
    {
        if buffer_len(&self.current_buffer) == 0 {
            assert(held(self.current_buffer) == Seq::<u8>::empty());
            None
        } else {
            Some(freeze(split(&mut self.current_buffer)))
        }
    }
}

/// All chunks that come out for `inputs`, none of them a failure, and at the end.
pub open spec fn coalesced(state: Held, inputs: Seq<Seq<u8>>) -> Seq<Seq<u8>>
    decreases inputs.len(),
{
    if inputs.len() == 0 {
        state.last()
    } else {
        let (next, out) = state.take_in(Ok::<Seq<u8>, ()>(inputs[0]));
        let rest = coalesced(next, inputs.drop_first());
        match out {
            Coalesced::Chunks(chunks) => chunks + rest,
            _ => rest,
        }
    }
}

/// Whether every chunk is of at least one byte and of at most `size` bytes.
pub open spec fn sized(chunks: Seq<Seq<u8>>, size: nat) -> bool {
    forall|i: int| 0 <= i < chunks.len() ==> 0 < (#[trigger] chunks[i]).len() <= size
}

/// Whether every chunk but the last is of `size` bytes.
pub open spec fn full_but_last(chunks: Seq<Seq<u8>>, size: nat) -> bool {
    forall|i: int| 0 <= i < chunks.len() - 1 ==> (#[trigger] chunks[i]).len() == size
}

proof fn flatten_in_parts(first: Seq<Seq<u8>>, second: Seq<Seq<u8>>)
    ensures
        (first + second).flatten() == first.flatten() + second.flatten(),
    decreases first.len(),
{
    if first.len() == 0 {
        assert(first + second == second);
        assert(first.flatten() + second.flatten() == second.flatten());
    } else {
        assert((first + second).drop_first() == first.drop_first() + second);
        flatten_in_parts(first.drop_first(), second);
        assert(first[0] + (first.drop_first().flatten() + second.flatten()) == (first[0]
            + first.drop_first().flatten()) + second.flatten());
    }
}

proof fn pieces_add_up(bytes: Seq<u8>, size: nat)
    requires
        size > 0,
    ensures
        pieces(bytes, size).flatten() + remainder(bytes, size) == bytes,
        remainder(bytes, size).len() < size,
        forall|i: int|
            0 <= i < pieces(bytes, size).len() ==> (#[trigger] pieces(bytes, size)[i]).len()
                == size,
    decreases bytes.len(),
{
    if bytes.len() >= size {
        let piece = bytes.take(size as int);
        let rest = bytes.skip(size as int);
        pieces_add_up(rest, size);
        assert(pieces(bytes, size).drop_first() == pieces(rest, size));
        assert(pieces(bytes, size).flatten() + remainder(bytes, size) == piece + (pieces(
            rest,
            size,
        ).flatten() + remainder(rest, size)));
        assert(piece + rest == bytes);
    } else {
        assert(pieces(bytes, size).flatten() + bytes == bytes);
    }
}

proof fn coalesced_adds_up(state: Held, inputs: Seq<Seq<u8>>)
    requires
        state.size > 0,
        !state.errored,
        state.pending.len() < state.size,
    ensures
        ({
            let chunks = coalesced(state, inputs);
            &&& chunks.flatten() == state.pending + inputs.flatten()
            &&& sized(chunks, state.size)
            &&& full_but_last(chunks, state.size)
        }),
    decreases inputs.len(),
{
    let chunks = coalesced(state, inputs);
    if inputs.len() == 0 {
        if state.pending.len() > 0 {
            seq![state.pending].lemma_flatten_one_element();
        }
        assert(state.pending + inputs.flatten() == state.pending);
    } else {
        let (next, out) = state.take_in(Ok::<Seq<u8>, ()>(inputs[0]));
        let rest = coalesced(next, inputs.drop_first());
        let first = out->Chunks_0;
        pieces_add_up(state.pending + inputs[0], state.size);
        coalesced_adds_up(next, inputs.drop_first());
        assert(chunks == first + rest);
        flatten_in_parts(first, rest);
        assert(chunks.flatten() == (first.flatten() + next.pending)
            + inputs.drop_first().flatten());
        assert(state.pending + inputs.flatten() == (state.pending + inputs[0])
            + inputs.drop_first().flatten());
        assert forall|i: int| 0 <= i < chunks.len() implies 0 < (#[trigger] chunks[i]).len()
            <= state.size && (i < chunks.len() - 1 ==> chunks[i].len() == state.size) by {
            if i < first.len() {
                assert(chunks[i] == first[i]);
            } else {
                assert(chunks[i] == rest[i - first.len()]);
            }
        }
    }
}

/// Coalescing does not change the bytes, no empty chunk comes out of it, and every chunk but the
/// last is of the size that was asked for.
pub proof fn law_coalescing_keeps_the_bytes(size: nat, inputs: Seq<Seq<u8>>)
    requires
        size > 0,
    ensures
        ({
            let chunks = coalesced(Held { size, pending: seq![], errored: false }, inputs);
            &&& chunks.flatten() == inputs.flatten()
            &&& sized(chunks, size)
            &&& full_but_last(chunks, size)
        }),
{
    coalesced_adds_up(Held { size, pending: seq![], errored: false }, inputs);
    assert(seq![] + inputs.flatten() == inputs.flatten());
}

/// A chunk without bytes changes nothing.
pub proof fn law_an_empty_chunk_changes_nothing<E>(state: Held)
    requires
        state.pending.len() < state.size,
        !state.errored,
    ensures
        state.take_in(Ok::<Seq<u8>, E>(seq![])) == (state, Coalesced::<E>::Chunks(seq![])),
{
    assert(state.pending + Seq::<u8>::empty() == state.pending);
}

/// Whatever goes in behind a failure, nothing comes out any more.
pub proof fn law_nothing_follows_a_failure<E>(
    state: Held,
    error: E,
    later: Result<Seq<u8>, E>,
)
    ensures
        ({
            let (failed, _) = state.take_in(Err::<Seq<u8>, E>(error));
            failed.take_in(later) == (failed, Coalesced::<E>::End) && (!state.errored
                ==> failed.last().len() == 0)
        }),
{
}

/// Chunks that are ready at the same time come out as one, with the bytes of all of them in order;
/// where one of them is a failure, the first such comes out in their place.
///
/// `n` is how many chunks there are ahead of the first failure, or in all.
pub proof fn law_a_batch_is_put_together<E>(batch: Seq<Result<Bytes, E>>, n: int)
    requires
        0 <= n <= batch.len(),
        forall|i: int| 0 <= i < n ==> #[trigger] batch[i] is Ok,
        n < batch.len() ==> batch[n] is Err,
    ensures
        n == batch.len() ==> batch_bytes(batch) == Ok::<Seq<u8>, E>(
            Seq::new(batch.len(), |i: int| octets(batch[i]->Ok_0)).flatten(),
        ),
        n < batch.len() ==> batch_bytes(batch) == Err::<Seq<u8>, E>(batch[n]->Err_0),
    decreases n,
{
    let first = batch.take(n);
    let all = Seq::new(n as nat, |i: int| octets(batch[i]->Ok_0));
    assert(batch_bytes(first) == Ok::<Seq<u8>, E>(all.flatten())) by {
        if n > 0 {
            let fewer = first.drop_last();
            assert forall|i: int| 0 <= i < n - 1 implies #[trigger] fewer[i] is Ok by {
                assert(batch[i] is Ok);
            }
            law_a_batch_is_put_together(fewer, n - 1);
            let some = Seq::new((n - 1) as nat, |i: int| octets(fewer[i]->Ok_0));
            assert(batch[n - 1] is Ok);
            assert(all == some.push(octets(batch[n - 1]->Ok_0)));
            some.lemma_flatten_push(octets(batch[n - 1]->Ok_0));
        } else {
            assert(all == Seq::<Seq<u8>>::empty());
        }
    }
    if n == batch.len() {
        assert(first == batch);
    } else {
        batch_fails_at(batch, n);
    }
}

/// A chunk comes out as soon as there are bytes enough for it: less than a chunk is ever held back,
/// and what comes out with what is held back is what was held back before and what went in.
pub proof fn law_chunks_come_out_at_once<E>(state: Held, bytes: Seq<u8>)
    requires
        state.size > 0,
        !state.errored,
    ensures
        ({
            let (after, out) = state.take_in(Ok::<Seq<u8>, E>(bytes));
            &&& after.pending.len() < state.size
            &&& after.size == state.size
            &&& !after.errored
            &&& out matches Coalesced::Chunks(chunks)
            &&& chunks.flatten() + after.pending == state.pending + bytes
            &&& forall|i: int|
                0 <= i < chunks.len() ==> (#[trigger] chunks[i]).len() == state.size
        }),
{
    pieces_add_up(state.pending + bytes, state.size);
}

/// A failure comes out as it went in, and what was held back is dropped.
pub proof fn law_a_failure_is_passed_on<E>(state: Held, error: E)
    requires
        !state.errored,
    ensures
        state.take_in(Err::<Seq<u8>, E>(error)).1 == Coalesced::Failure(error),
        state.take_in(Err::<Seq<u8>, E>(error)).0.pending.len() == 0,
        state.take_in(Err::<Seq<u8>, E>(error)).0.errored,
{
}

/// At the end what is held back comes out, and nothing where nothing is.
pub proof fn law_the_rest_comes_out_last(state: Held)
    ensures
        state.last().flatten() == state.pending,
        state.last().len() == (if state.pending.len() == 0 {
            0nat
        } else {
            1
        }),
{
    if state.pending.len() > 0 {
        seq![state.pending].lemma_flatten_one_element();
    }
}

} // verus!
