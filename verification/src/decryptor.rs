//! The pull side of the codec: a ciphertext stream goes in, plaintext is read out one
//! block at a time.

use crate::buffer::{
    buffer_bytes, buffer_clear, buffer_extend, buffer_len, buffer_new, held, BLOCK, TAG_LEN,
};
use crate::cipher::{open_in_place, opened, SALT_LEN};
use crate::cryptor::make_stream_nonce;
use crate::error::StreamError;
use crate::framing::{
    block_opened, is_last_block, lemma_unauthentic_block, nth_block, session_key, unframed,
};
use aead::arrayvec::ArrayVec;
use vstd::prelude::*;
use vstd::slice::slice_subrange;

verus! {

/// An open decryption stream over a source held in memory. It opens one block at a
/// time and hands the plaintext out as it is asked for.
pub struct Decryptor {
    key: [u8; 32],
    position: u32,
    finished: bool,
    failure: Option<StreamError>,
    buffer: ArrayVec<u8, 8192>,
    cursor: usize,
    input: Vec<u8>,
    taken: usize,
}

/// What one call of `read` hands out of `available`: as much as fits in the caller's
/// buffer, written over its first bytes, and the rest stays pending.
pub open spec fn served(
    available: Seq<u8>,
    before: Seq<u8>,
    after: Seq<u8>,
    pending: Seq<u8>,
    r: Result<usize, StreamError>,
) -> bool {
    let n = if before.len() < available.len() {
        before.len()
    } else {
        available.len()
    };
    &&& r == Ok::<usize, StreamError>(n as usize)
    &&& after == available.take(n as int) + before.skip(n as int)
    &&& pending == available.skip(n as int)
}

impl Decryptor {
    /// The key that this stream's blocks are opened with.
    pub closed spec fn session(&self) -> Seq<u8> {
        self.key@
    }

    /// The number of non-terminal blocks opened so far.
    pub closed spec fn position(&self) -> nat {
        self.position as nat
    }

    /// Whether the terminal block has been opened.
    pub closed spec fn finished(&self) -> bool {
        self.finished
    }

    /// The error that ended the stream, if one did.
    pub closed spec fn failure(&self) -> Option<StreamError> {
        self.failure
    }

    /// Plaintext of the block opened last that no `read` has handed out yet.
    pub closed spec fn pending(&self) -> Seq<u8> {
        held(self.buffer).skip(self.cursor as int)
    }

    /// The part of the source that has not been taken into a block yet.
    pub closed spec fn remaining(&self) -> Seq<u8> {
        self.input@.skip(self.taken as int)
    }

    /// The state is consistent; a stream that has failed holds no plaintext.
    pub closed spec fn wf(&self) -> bool {
        &&& self.cursor <= held(self.buffer).len()
        &&& self.taken <= self.input@.len()
        &&& self.failure.is_some() ==> self.cursor == held(self.buffer).len()
    }

    /// A stream that has failed has no plaintext pending.
    pub proof fn lemma_failed_is_drained(&self)
        requires
            self.wf(),
        ensures
            self.failure().is_some() ==> self.pending().len() == 0,
    {
    }

    /// A block ahead that does not authenticate spoils all that is still to come:
    /// reading to the end fails, however many blocks before it are sound.
    pub proof fn lemma_spoiled(&self, i: nat)
        requires
            self.wf(),
            !self.finished(),
            self.failure().is_none(),
            i * BLOCK <= self.remaining().len(),
            block_opened(
                self.session(),
                self.position() + i,
                is_last_block(self.remaining(), i),
                nth_block(self.remaining(), i),
            ).is_none(),
        ensures
            self.rest().is_err(),
    {
        lemma_unauthentic_block(self.session(), self.position(), self.remaining(), i);
    }

    /// Whether the next block is the terminal one: fewer than `BLOCK` bytes remain.
    pub open spec fn next_is_last(&self) -> bool {
        self.remaining().len() < BLOCK
    }

    /// The bytes of the next block.
    pub open spec fn next_block(&self) -> Seq<u8> {
        if self.next_is_last() {
            self.remaining()
        } else {
            self.remaining().take(BLOCK as int)
        }
    }

    /// What opening the next block gives.
    pub open spec fn next_plain(&self) -> Result<Seq<u8>, StreamError> {
        if !self.next_is_last() && self.position() >= u32::MAX {
            Err(StreamError::Exhausted)
        } else {
            match block_opened(
                self.session(),
                self.position(),
                self.next_is_last(),
                self.next_block(),
            ) {
                Some(plain) => Ok(plain),
                None => Err(StreamError::Authentication),
            }
        }
    }

    /// The plaintext that is still to come when the stream is read to its end.
    pub open spec fn rest(&self) -> Result<Seq<u8>, StreamError> {
        if self.failure().is_some() {
            Err(self.failure().unwrap())
        } else if self.finished() {
            Ok(self.pending())
        } else {
            match unframed(self.session(), self.position(), self.remaining()) {
                Ok(plain) => Ok(self.pending() + plain),
                Err(e) => Err(e),
            }
        }
    }

    /// Nothing that a caller can observe differs between `self` and `other`.
    pub open spec fn same(&self, other: &Decryptor) -> bool {
        &&& self.session() == other.session()
        &&& self.position() == other.position()
        &&& self.finished() == other.finished()
        &&& self.failure() == other.failure()
        &&& self.pending() == other.pending()
        &&& self.remaining() == other.remaining()
    }

    /// Opens a stream: takes the salt from the head of `input` and derives the session
    /// key. A source shorter than a salt is refused before any key is derived.
    pub fn new(key: [u8; 32], input: Vec<u8>) -> (r: Result<Decryptor, StreamError>)
        ensures
            r.is_err() <==> input@.len() < SALT_LEN,
            match r {
                Ok(d) => {
                    &&& d.wf()
                    &&& d.session() == session_key(key@, input@.take(SALT_LEN as int))
                    &&& d.position() == 0
                    &&& !d.finished()
                    &&& d.failure().is_none()
                    &&& d.pending() == Seq::<u8>::empty()
                    &&& d.remaining() == input@.skip(SALT_LEN as int)
                },
                Err(e) => e == StreamError::TruncatedHeader,
            },
    {
        if input.len() < SALT_LEN {
            return Err(StreamError::TruncatedHeader);
        }
        let mut salt: [u8; 24] = [0u8; 24];
        let mut i: usize = 0;
        while i < SALT_LEN
            invariant
                i <= SALT_LEN,
                SALT_LEN <= input@.len(),
                forall|j: int| 0 <= j < i ==> salt@[j] == input@[j],
            decreases SALT_LEN - i,
        {
            salt[i] = input[i];
            i = i + 1;
        }
        assert(salt@ =~= input@.take(SALT_LEN as int));
        let session = crate::cryptor::derive(&key, &salt);
        let buffer = buffer_new();
        let d = Decryptor {
            key: session,
            position: 0,
            finished: false,
            failure: None,
            buffer,
            cursor: 0,
            input,
            taken: SALT_LEN,
        };
        assert(d.pending() =~= Seq::<u8>::empty());
        Ok(d)
    }

    /// Adds `bytes` at the end of the source.
    pub fn feed(&mut self, bytes: &[u8])
        requires
            old(self).wf(),
        ensures
            final(self).wf(),
            final(self).session() == old(self).session(),
            final(self).position() == old(self).position(),
            final(self).finished() == old(self).finished(),
            final(self).failure() == old(self).failure(),
            final(self).pending() == old(self).pending(),
            final(self).remaining() == old(self).remaining() + bytes@,
    {
        let mut fresh: Vec<u8> = Vec::new();
        fresh.extend_from_slice(slice_subrange(self.input.as_slice(), self.taken, self.input.len()));
        fresh.extend_from_slice(bytes);
        assert(fresh@.skip(0) =~= old(self).remaining() + bytes@);
        self.input = fresh;
        self.taken = 0;
    }

    /// The number of source bytes that no block has taken yet.
    pub fn queued(&self) -> (r: usize)
        requires
            self.wf(),
        ensures
            r == self.remaining().len(),
    {
        self.input.len() - self.taken
    }

    /// The number of plaintext bytes that are ready to be read.
    pub fn buffered(&self) -> (r: usize)
        requires
            self.wf(),
        ensures
            r == self.pending().len(),
    {
        buffer_len(&self.buffer) - self.cursor
    }

    /// Whether the terminal block has been opened.
    pub fn is_finished(&self) -> (r: bool)
        ensures
            r == self.finished(),
    {
        self.finished
    }

    /// The number of bytes that the source still owes before the next `read` can tell
    /// what the next block is: none while plaintext is pending, after the end or a
    /// failure, or once a whole block waits; else what is missing of a whole block. A
    /// source that has no more to give has ended on its terminal block.
    pub fn wanted(&self) -> (n: usize)
        requires
            self.wf(),
        ensures
            n == if self.pending().len() > 0 || self.finished() || self.failure().is_some()
                || self.remaining().len() >= BLOCK {
                0
            } else {
                BLOCK - self.remaining().len()
            },
    {
        let queued: usize = self.input.len() - self.taken;
        if buffer_len(&self.buffer) - self.cursor > 0 || self.finished || self.failure.is_some()
            || queued >= BLOCK {
            0
        } else {
            BLOCK - queued
        }
    }

    /// Moves the next block's bytes from the source into the buffer: `BLOCK` bytes
    /// where that many remain, else all that is left.
    fn fill_buf(&mut self) -> (r: Result<(), StreamError>)
        requires
            old(self).wf(),
            old(self).failure.is_none(),
        ensures
            r.is_ok(),
            final(self).wf(),
            final(self).key == old(self).key,
            final(self).position == old(self).position,
            final(self).finished == old(self).finished,
            final(self).failure == old(self).failure,
            final(self).cursor == 0,
            held(final(self).buffer) == old(self).next_block(),
            final(self).remaining() == old(self).remaining().skip(
                old(self).next_block().len() as int,
            ),
    {
        let left: usize = self.input.len() - self.taken;
        let n: usize = if left < BLOCK {
            left
        } else {
            BLOCK
        };
        buffer_clear(&mut self.buffer);
        let piece = slice_subrange(self.input.as_slice(), self.taken, self.taken + n);
        proof {
            assert(piece@ =~= old(self).next_block());
            assert(self.input@.skip(self.taken + n) =~= old(self).remaining().skip(n as int));
        }
        match buffer_extend(&mut self.buffer, piece) {
            Ok(()) => {
                assert(held(self.buffer) =~= piece@);
                self.taken = self.taken + n;
                self.cursor = 0;
                Ok(())
            },
            Err(_) => Err(StreamError::Capacity),
        }
    }

    /// Opens the block in the buffer where it lies: as the terminal block where it is
    /// shorter than `BLOCK`, else as the next non-terminal one. A block that does not
    /// open ends the stream for good, and nothing of it is kept.
    fn decrypt(&mut self) -> (r: Result<(), StreamError>)
        requires
            old(self).wf(),
            old(self).cursor == 0,
            old(self).failure.is_none(),
            !old(self).finished,
        ensures
            final(self).wf(),
            final(self).key == old(self).key,
            final(self).cursor == 0,
            final(self).input == old(self).input,
            final(self).taken == old(self).taken,
            ({
                let block = held(old(self).buffer);
                let last = block.len() < BLOCK;
                let outcome = if !last && old(self).position >= u32::MAX {
                    Err::<Seq<u8>, StreamError>(StreamError::Exhausted)
                } else {
                    match block_opened(old(self).key@, old(self).position as nat, last, block) {
                        Some(plain) => Ok(plain),
                        None => Err(StreamError::Authentication),
                    }
                };
                match outcome {
                    Ok(plain) => {
                        &&& r.is_ok()
                        &&& held(final(self).buffer) == plain
                        &&& plain.len() + TAG_LEN == block.len()
                        &&& final(self).failure.is_none()
                        &&& final(self).finished == last
                        &&& final(self).position == old(self).position + if last {
                            0int
                        } else {
                            1int
                        }
                    },
                    Err(e) => {
                        &&& r == Err::<(), StreamError>(e)
                        &&& held(final(self).buffer) == Seq::<u8>::empty()
                        &&& final(self).failure == Some(e)
                        &&& final(self).finished == old(self).finished
                        &&& final(self).position == old(self).position
                    },
                }
            }),
    {
        let last: bool = buffer_len(&self.buffer) < BLOCK;
        if !last && self.position == u32::MAX {
            buffer_clear(&mut self.buffer);
            self.failure = Some(StreamError::Exhausted);
            return Err(StreamError::Exhausted);
        }
        let nonce = make_stream_nonce();
        match open_in_place(&self.key, &nonce, self.position, last, &mut self.buffer) {
            Ok(()) => {
                if last {
                    self.finished = true;
                } else {
                    self.position = self.position + 1;
                }
                Ok(())
            },
            Err(_) => {
                buffer_clear(&mut self.buffer);
                self.failure = Some(StreamError::Authentication);
                Err(StreamError::Authentication)
            },
        }
    }

    /// Copies pending plaintext into `buf`, as much as fits.
    fn serve(&mut self, buf: &mut [u8]) -> (n: usize)
        requires
            old(self).wf(),
        ensures
            final(self).wf(),
            final(self).session() == old(self).session(),
            final(self).position() == old(self).position(),
            final(self).finished() == old(self).finished(),
            final(self).failure() == old(self).failure(),
            final(self).remaining() == old(self).remaining(),
            served(
                old(self).pending(),
                old(buf)@,
                final(buf)@,
                final(self).pending(),
                Ok::<usize, StreamError>(n),
            ),
    {
        let ready = buffer_bytes(&self.buffer);
        let total: usize = ready.len();
        let available: usize = total - self.cursor;
        let n: usize = if buf.len() < available {
            buf.len()
        } else {
            available
        };
        let mut i: usize = 0;
        while i < n
            invariant
                i <= n,
                n <= buf@.len(),
                buf@.len() == old(buf)@.len(),
                self.cursor + n <= total,
                total == ready@.len(),
                ready@ == held(self.buffer),
                self.cursor == old(self).cursor,
                buf@ =~= old(self).pending().take(i as int) + old(buf)@.skip(i as int),
                old(self).pending() == ready@.skip(self.cursor as int),
            decreases n - i,
        {
            buf[i] = ready[self.cursor + i];
            i = i + 1;
        }
        self.cursor = self.cursor + n;
        assert(self.pending() =~= old(self).pending().skip(n as int));
        n
    }

    /// Reads plaintext into `buf` and returns the number of bytes read. Plaintext that
    /// is pending is handed out first, and the source is left alone. With none pending,
    /// a stream that has failed reports its error again, and a finished one reports the
    /// end with `0`. Otherwise exactly one block is opened, a run of fewer than `BLOCK`
    /// bytes as the terminal one, and the read is served from its plaintext.
    pub fn read(&mut self, buf: &mut [u8]) -> (r: Result<usize, StreamError>)
        requires
            old(self).wf(),
        ensures
            final(self).wf(),
            final(self).session() == old(self).session(),
            final(buf)@.len() == old(buf)@.len(),
            if old(buf)@.len() == 0 {
                &&& r == Ok::<usize, StreamError>(0)
                &&& final(self).same(old(self))
            } else if old(self).pending().len() > 0 {
                &&& served(old(self).pending(), old(buf)@, final(buf)@, final(self).pending(), r)
                &&& final(self).position() == old(self).position()
                &&& final(self).finished() == old(self).finished()
                &&& final(self).failure() == old(self).failure()
                &&& final(self).remaining() == old(self).remaining()
            } else if old(self).failure().is_some() {
                &&& r == Err::<usize, StreamError>(old(self).failure().unwrap())
                &&& final(self).same(old(self))
                &&& final(buf)@ == old(buf)@
            } else if old(self).finished() {
                &&& r == Ok::<usize, StreamError>(0)
                &&& final(self).same(old(self))
                &&& final(buf)@ == old(buf)@
            } else {
                &&& final(self).remaining() == old(self).remaining().skip(
                    old(self).next_block().len() as int,
                )
                &&& match old(self).next_plain() {
                    Ok(plain) => {
                        &&& plain.len() + TAG_LEN == old(self).next_block().len()
                        &&& served(plain, old(buf)@, final(buf)@, final(self).pending(), r)
                        &&& final(self).failure().is_none()
                        &&& final(self).finished() == old(self).next_is_last()
                        &&& final(self).position() == old(self).position() + if old(
                            self,
                        ).next_is_last() {
                            0int
                        } else {
                            1int
                        }
                    },
                    Err(e) => {
                        &&& r == Err::<usize, StreamError>(e)
                        &&& final(self).failure() == Some(e)
                        &&& final(self).pending() == Seq::<u8>::empty()
                        &&& final(self).finished() == old(self).finished()
                        &&& final(self).position() == old(self).position()
                        &&& final(buf)@ == old(buf)@
                    },
                }
            },
    {
        if buf.len() == 0 {
            return Ok(0);
        }
        if buffer_len(&self.buffer) - self.cursor == 0 {
            match self.failure {
                Some(e) => {
                    return Err(e);
                },
                None => {},
            }
            if self.finished {
                return Ok(0);
            }
            let _filled = self.fill_buf();
            match self.decrypt() {
                Ok(()) => {
                    assert(self.pending() =~= held(self.buffer));
                },
                Err(e) => {
                    assert(self.pending() =~= Seq::<u8>::empty());
                    return Err(e);
                },
            }
        }
        let n = self.serve(buf);
        Ok(n)
    }
}

} // verus!
