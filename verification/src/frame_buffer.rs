//! The buffer that holds the payload of the frame record in hand. It is
//! reused from record to record and only ever grows.

use vstd::prelude::*;

verus! {

/// `len` zero bytes.
pub open spec fn zeros(len: int) -> Seq<u8> {
    Seq::new(len as nat, |i: int| 0u8)
}

/// The buffer after it was made to hold `frame_size` bytes: unchanged if it
/// was long enough, else extended with zero bytes to exactly that length.
pub open spec fn grown(bytes: Seq<u8>, frame_size: int) -> Seq<u8> {
    if bytes.len() >= frame_size {
        bytes
    } else {
        bytes + zeros(frame_size - bytes.len())
    }
}

/// The buffer after `payload` was put at its start.
pub open spec fn filled(bytes: Seq<u8>, payload: Seq<u8>) -> Seq<u8> {
    payload + bytes.skip(payload.len() as int)
}

/// The buffer after each of `payloads` in turn was given room and put at
/// its start.
pub open spec fn fed(bytes: Seq<u8>, payloads: Seq<Seq<u8>>) -> Seq<u8>
    decreases payloads.len(),
{
    if payloads.len() == 0 {
        bytes
    } else {
        filled(
            grown(fed(bytes, payloads.drop_last()), payloads.last().len() as int),
            payloads.last(),
        )
    }
}

/// The largest length among `payloads`, and at least `floor`.
pub open spec fn longest(floor: int, payloads: Seq<Seq<u8>>) -> int
    decreases payloads.len(),
{
    if payloads.len() == 0 {
        floor
    } else {
        let before = longest(floor, payloads.drop_last());
        if before >= payloads.last().len() {
            before
        } else {
            payloads.last().len() as int
        }
    }
}

/// Growing never shrinks: the new length is the larger of the old length
/// and the frame size, and what was there stays where it was.
pub proof fn lemma_grown(bytes: Seq<u8>, frame_size: int)
    requires
        0 <= frame_size,
    ensures
        grown(bytes, frame_size).len() == if bytes.len() >= frame_size {
            bytes.len() as int
        } else {
            frame_size
        },
        grown(bytes, frame_size).take(bytes.len() as int) == bytes,
{
    assert(grown(bytes, frame_size).take(bytes.len() as int) =~= bytes);
}

/// A payload put into a buffer that was given room for it is read back
/// unchanged, whatever the buffer held before.
pub proof fn lemma_payload_round_trip(bytes: Seq<u8>, payload: Seq<u8>)
    ensures
        filled(grown(bytes, payload.len() as int), payload).take(payload.len() as int)
            == payload,
        filled(grown(bytes, payload.len() as int), payload).len() == grown(
            bytes,
            payload.len() as int,
        ).len(),
{
    let room = grown(bytes, payload.len() as int);
    assert(filled(room, payload).take(payload.len() as int) =~= payload);
}

/// Feeding records one after the other loses nothing: after the last one
/// the buffer starts with that record's payload, and its length is the
/// largest frame size seen so far, or what it was at the start if that was
/// more.
pub proof fn lemma_fed(bytes: Seq<u8>, payloads: Seq<Seq<u8>>)
    ensures
        fed(bytes, payloads).len() == longest(bytes.len() as int, payloads),
        payloads.len() > 0 ==> fed(bytes, payloads).take(payloads.last().len() as int)
            == payloads.last(),
    decreases payloads.len(),
{
    if payloads.len() > 0 {
        lemma_fed(bytes, payloads.drop_last());
        let before = fed(bytes, payloads.drop_last());
        lemma_grown(before, payloads.last().len() as int);
        lemma_payload_round_trip(before, payloads.last());
    }
}

/// The part of a vector that a caller may overwrite: its first `n` bytes.
/// Calls `index_mut` of `Vec<u8>` with the range `..n`. Taken on trust: the
/// slice that comes back is the first `n` bytes of the vector in place, a
/// slice never changes its length, and once the borrow ends the vector
/// holds what the slice holds, followed by its own bytes from `n` on.
#[verifier::external_body]
fn window_mut(data: &mut Vec<u8>, n: usize) -> (window: &mut [u8])
    requires
        n <= old(data)@.len(),
    ensures
        window@ == old(data)@.take(n as int),
        final(window)@.len() == n,
        final(data)@ == final(window)@ + old(data)@.skip(n as int),
{
    &mut data[..n]
}

/// A growable byte buffer and the size of the frame it holds now.
pub struct FrameBuffer {
    data: Vec<u8>,
    frame_size: usize,
}

impl FrameBuffer {
    /// All the bytes of the buffer.
    pub closed spec fn bytes(&self) -> Seq<u8> {
        self.data@
    }

    /// Size of the frame in hand.
    pub closed spec fn frame_size(&self) -> int {
        self.frame_size as int
    }

    /// The frame in hand lies inside the buffer.
    pub open spec fn wf(&self) -> bool {
        0 <= self.frame_size() <= self.bytes().len()
    }

    /// The bytes of the frame in hand: the first `frame_size` bytes.
    pub open spec fn payload_bytes(&self) -> Seq<u8> {
        self.bytes().take(self.frame_size())
    }

    /// An empty buffer.
    pub fn new() -> (buffer: FrameBuffer)
        ensures
            buffer.wf(),
            buffer.bytes() == Seq::<u8>::empty(),
            buffer.frame_size() == 0,
    {
        FrameBuffer { data: Vec::new(), frame_size: 0 }
    }

    /// Number of bytes the buffer holds.
    pub fn len(&self) -> (len: usize)
        ensures
            len == self.bytes().len(),
    {
        self.data.len()
    }

    /// Makes room for a frame of `frame_size` bytes and takes that size as
    /// the size of the frame in hand. The buffer grows if it is shorter,
    /// the new bytes being zero, and is never made shorter.
    pub fn reserve(&mut self, frame_size: usize)
        ensures
            final(self).wf(),
            final(self).bytes() == grown(old(self).bytes(), frame_size as int),
            final(self).frame_size() == frame_size,
    {
        if self.data.len() < frame_size {
            self.data.resize(frame_size, 0u8);
            assert(self.data@ =~= grown(old(self).bytes(), frame_size as int));
        }
        self.frame_size = frame_size;
    }

    /// The place for the payload of the frame in hand: exactly `frame_size`
    /// bytes, to be overwritten by whoever reads the record. What is left
    /// there is what `payload` returns afterwards.
    pub fn slot(&mut self) -> (slot: &mut [u8])
        requires
            old(self).wf(),
        ensures
            slot@ == old(self).payload_bytes(),
            final(slot)@.len() == old(self).frame_size(),
            final(self).wf(),
            final(self).frame_size() == old(self).frame_size(),
            final(self).bytes() == filled(old(self).bytes(), final(slot)@),
            final(self).payload_bytes() == final(slot)@,
    {
        let n = self.frame_size;
        let window = window_mut(&mut self.data, n);
        proof {
            assert(filled(old(self).bytes(), final(window)@).take(n as int) =~= final(window)@);
        }
        window
    }

    /// The payload of the frame in hand.
    pub fn payload(&self) -> (payload: &[u8])
        requires
            self.wf(),
        ensures
            payload@ == self.payload_bytes(),
    {
        let all = self.data.as_slice();
        &all[0..self.frame_size]
    }
}

} // verus!
