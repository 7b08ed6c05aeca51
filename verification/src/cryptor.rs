//! The push side of the codec: plaintext goes in, the salt and sealed blocks come out.

use crate::buffer::{
    buffer_bytes, buffer_clear, buffer_extend, buffer_len, buffer_new, held, BLOCK, MAX_CAP,
    TAG_LEN,
};
use crate::cipher::{make_nonce, seal_in_place, sha256, SALT_LEN};
use crate::error::StreamError;
use crate::framing::{
    block_at, chunk, decoded, encoded, frames, framed, full_blocks, lemma_frames_len,
    lemma_frames_push, lemma_frames_stable, lemma_sound_stable, lemma_unframed_frames,
    session_key, sound, stream_nonce, tail, terminal,
};
use aead::arrayvec::ArrayVec;
use vstd::prelude::*;
use vstd::slice::slice_subrange;

verus! {

/// Derives the key of one stream from the master key and the stream's salt.
pub fn derive(master: &[u8; 32], salt: &[u8; 24]) -> (r: [u8; 32])
    ensures
        r@ == session_key(master@, salt@),
{
    let mut material: Vec<u8> = Vec::new();
    material.extend_from_slice(master.as_slice());
    material.extend_from_slice(salt.as_slice());
    assert(material@ =~= master@ + salt@);
    sha256(material.as_slice())
}

/// The nonce that every stream seals under.
pub fn make_stream_nonce() -> (r: [u8; 7])
    ensures
        r@ == stream_nonce(),
{
    let r: [u8; 7] = [0u8, 0u8, 0u8, 0u8, 0u8, 0u8, 0u8];
    assert(r@ =~= stream_nonce());
    r
}

/// An open encryption stream. It gathers plaintext until a block is full, seals the
/// block and appends it to the sink behind the salt.
pub struct Cryptor {
    key: [u8; 32],
    position: u32,
    buffer: ArrayVec<u8, 8192>,
    output: Vec<u8>,
    master: Ghost<Seq<u8>>,
    salt: Ghost<Seq<u8>>,
    written: Ghost<Seq<u8>>,
}

impl Cryptor {
    /// The master key that the stream was opened with.
    pub closed spec fn master(&self) -> Seq<u8> {
        self.master@
    }

    /// The salt at the head of the stream.
    pub closed spec fn salt(&self) -> Seq<u8> {
        self.salt@
    }

    /// All the plaintext that the stream has accepted so far.
    pub closed spec fn written(&self) -> Seq<u8> {
        self.written@
    }

    /// What stands in the sink.
    pub closed spec fn output(&self) -> Seq<u8> {
        self.output@
    }

    /// The key that seals this stream's blocks.
    pub open spec fn session(&self) -> Seq<u8> {
        session_key(self.master(), self.salt())
    }

    /// The ciphertext stream produced so far: the salt and every full block.
    pub open spec fn wire(&self) -> Seq<u8> {
        self.salt() + frames(self.session(), self.written(), 0, full_blocks(self.written()))
    }

    spec fn inv(&self) -> bool {
        &&& self.salt@.len() == SALT_LEN
        &&& self.key@ == session_key(self.master@, self.salt@)
        &&& self.position * MAX_CAP + held(self.buffer).len() == self.written@.len()
        &&& held(self.buffer).len() <= MAX_CAP
        &&& held(self.buffer) == self.written@.skip(self.position * MAX_CAP)
        &&& sound(self.key@, self.written@, self.position as nat)
    }

    /// The stream's state is consistent: the buffer holds the plaintext that no block
    /// carries yet, which is less than one block's worth, and the position counts the
    /// blocks sealed.
    pub closed spec fn wf(&self) -> bool {
        &&& self.inv()
        &&& held(self.buffer).len() < MAX_CAP
    }

    /// Every block sealed so far has exactly `BLOCK` bytes, carries the chunk of the
    /// plaintext at its position, and opens to that chunk again.
    pub proof fn lemma_blocks_sound(&self)
        requires
            self.wf(),
        ensures
            sound(self.session(), self.written(), full_blocks(self.written())),
            frames(self.session(), self.written(), 0, full_blocks(self.written())).len()
                == full_blocks(self.written()) * BLOCK,
    {
        let count = full_blocks(self.written());
        assert(count == self.position);
        lemma_frames_len(self.session(), self.written(), 0, count, count);
    }

    /// Opens a stream under a given salt: derives the session key and writes the salt
    /// to the sink.
    pub fn with_salt(key: [u8; 32], salt: [u8; 24], output: Vec<u8>) -> (r: Cryptor)
        ensures
            r.wf(),
            r.master() == key@,
            r.salt() == salt@,
            r.written() == Seq::<u8>::empty(),
            r.output() == output@ + salt@,
    {
        let mut output = output;
        output.extend_from_slice(salt.as_slice());
        let session = derive(&key, &salt);
        let buffer = buffer_new();
        let r = Cryptor {
            key: session,
            position: 0,
            buffer,
            output,
            master: Ghost(key@),
            salt: Ghost(salt@),
            written: Ghost(Seq::empty()),
        };
        assert(r.written@.skip(0) =~= held(r.buffer));
        r
    }

    /// Opens a stream under a fresh random salt. It fails only where the operating
    /// system gives no random bytes.
    pub fn new(key: [u8; 32], output: Vec<u8>) -> (r: Result<Cryptor, StreamError>)
        ensures
            match r {
                Ok(c) => {
                    &&& c.wf()
                    &&& c.master() == key@
                    &&& c.written() == Seq::<u8>::empty()
                    &&& c.salt().len() == SALT_LEN
                    &&& c.output() == output@ + c.salt()
                },
                Err(e) => e == StreamError::Entropy,
            },
    {
        match make_nonce() {
            Some(salt) => Ok(Cryptor::with_salt(key, salt, output)),
            None => Err(StreamError::Entropy),
        }
    }

    /// Appends `buf` to the block buffer, which has room for it.
    fn fill_buffer(&mut self, buf: &[u8]) -> (r: Result<(), StreamError>)
        requires
            old(self).inv(),
            held(old(self).buffer).len() + buf@.len() <= MAX_CAP,
        ensures
            r.is_ok(),
            final(self).inv(),
            final(self).master@ == old(self).master@,
            final(self).salt@ == old(self).salt@,
            final(self).key == old(self).key,
            final(self).position == old(self).position,
            final(self).output@ == old(self).output@,
            final(self).written@ == old(self).written@ + buf@,
            held(final(self).buffer) == held(old(self).buffer) + buf@,
    {
        match buffer_extend(&mut self.buffer, buf) {
            Ok(()) => {
                proof {
                    lemma_sound_stable(
                        self.key@,
                        self.written@,
                        buf@,
                        self.position as nat,
                    );
                    assert((self.written@ + buf@).skip(self.position * MAX_CAP) =~= held(
                        self.buffer,
                    ));
                }
                self.written = Ghost(self.written@ + buf@);
                Ok(())
            },
            Err(_) => Err(StreamError::Capacity),
        }
    }

    /// Seals the full buffer as the next non-terminal block, writes the block to the
    /// sink and empties the buffer.
    fn flush_block(&mut self) -> (r: Result<(), StreamError>)
        requires
            old(self).inv(),
            held(old(self).buffer).len() == MAX_CAP,
            old(self).position < u32::MAX,
        ensures
            r.is_ok(),
            final(self).inv(),
            final(self).master@ == old(self).master@,
            final(self).salt@ == old(self).salt@,
            final(self).key == old(self).key,
            final(self).written@ == old(self).written@,
            final(self).position == old(self).position + 1,
            held(final(self).buffer) == Seq::<u8>::empty(),
            final(self).output@ == old(self).output@ + block_at(
                old(self).key@,
                old(self).written@,
                old(self).position as nat,
            ),
    {
        let nonce = make_stream_nonce();
        let ghost plain = held(self.buffer);
        let ghost at = self.position as nat;
        proof {
            assert(plain =~= chunk(self.written@, at));
        }
        match seal_in_place(&self.key, &nonce, self.position, false, &mut self.buffer) {
            Ok(()) => {
                self.output.extend_from_slice(buffer_bytes(&self.buffer));
                buffer_clear(&mut self.buffer);
                self.position = self.position + 1;
                proof {
                    assert(self.written@.skip(self.position * MAX_CAP) =~= Seq::<u8>::empty());
                }
                Ok(())
            },
            Err(_) => Err(StreamError::Capacity),
        }
    }

    /// Accepts all of `buf`. Every time the buffer reaches a block's capacity the block
    /// is sealed and written to the sink, so on return less than one block's worth of
    /// plaintext is buffered. The call fails, and changes nothing, where the stream
    /// would need more blocks than the counter can number.
    pub fn write(&mut self, buf: &[u8]) -> (r: Result<usize, StreamError>)
        requires
            old(self).wf(),
        ensures
            final(self).wf(),
            final(self).master() == old(self).master(),
            final(self).salt() == old(self).salt(),
            r.is_err() <==> full_blocks(old(self).written() + buf@) > u32::MAX,
            match r {
                Ok(n) => {
                    &&& n == buf@.len()
                    &&& final(self).written() == old(self).written() + buf@
                    &&& final(self).output() == old(self).output() + frames(
                        old(self).session(),
                        final(self).written(),
                        full_blocks(old(self).written()),
                        full_blocks(final(self).written()),
                    )
                    &&& final(self).output().len() == old(self).output().len() + (full_blocks(
                        final(self).written(),
                    ) - full_blocks(old(self).written())) * BLOCK
                },
                Err(e) => {
                    &&& e == StreamError::Exhausted
                    &&& final(self).written() == old(self).written()
                    &&& final(self).output() == old(self).output()
                },
            },
    {
        let pending = buffer_len(&self.buffer);
        let room: usize = MAX_CAP - pending;
        let blocks: usize = if buf.len() < room {
            0
        } else {
            1 + (buf.len() - room) / MAX_CAP
        };
        let ghost total = old(self).written() + buf@;
        let ghost first = old(self).position as nat;
        assert(full_blocks(old(self).written()) == first);
        assert(full_blocks(total) == first + blocks);
        if blocks as u64 > (u32::MAX - self.position) as u64 {
            return Err(StreamError::Exhausted);
        }
        let mut start: usize = 0;
        let mut capacity: usize = room;
        assert(self.written@ + buf@.take(0) =~= self.written@);
        while buf.len() - start >= capacity
            invariant
                self.inv(),
                self.master@ == old(self).master@,
                self.salt@ == old(self).salt@,
                self.key == old(self).key,
                0 < capacity <= MAX_CAP,
                held(self.buffer).len() + capacity == MAX_CAP,
                start <= buf@.len(),
                total == old(self).written@ + buf@,
                first == old(self).position,
                first <= self.position,
                full_blocks(total) <= u32::MAX,
                self.written@ == old(self).written@ + buf@.take(start as int),
                self.output@ == old(self).output@ + frames(
                    self.key@,
                    self.written@,
                    first,
                    self.position as nat,
                ),
            decreases buf@.len() - start,
        {
            let ghost before = self.written@;
            let piece = slice_subrange(buf, start, start + capacity);
            let _filled = self.fill_buffer(piece);
            proof {
                lemma_frames_stable(self.key@, before, piece@, first, self.position as nat);
                assert(self.written@ =~= old(self).written@ + buf@.take(start + capacity));
            }
            let _flushed = self.flush_block();
            proof {
                lemma_frames_push(self.key@, self.written@, first, (self.position - 1) as nat);
                assert(self.output@ =~= old(self).output@ + frames(
                    self.key@,
                    self.written@,
                    first,
                    self.position as nat,
                ));
            }
            start = start + capacity;
            capacity = MAX_CAP;
        }
        let ghost before = self.written@;
        let piece = slice_subrange(buf, start, buf.len());
        let _filled = self.fill_buffer(piece);
        proof {
            lemma_frames_stable(self.key@, before, piece@, first, self.position as nat);
            assert(self.written@ =~= total);
            assert(full_blocks(total) == self.position);
            lemma_frames_len(
                self.key@,
                self.written@,
                first,
                self.position as nat,
                self.position as nat,
            );
        }
        Ok(buf.len())
    }

    /// Passes a flush request on to the sink. Nothing is sealed early: buffered
    /// plaintext stays in the buffer, and a sink in memory has nothing to flush.
    pub fn flush(&mut self) -> (r: Result<(), StreamError>)
        requires
            old(self).wf(),
        ensures
            r.is_ok(),
            final(self).wf(),
            final(self).master() == old(self).master(),
            final(self).salt() == old(self).salt(),
            final(self).written() == old(self).written(),
            final(self).output() == old(self).output(),
    {
        Ok(())
    }

    /// Hands over what stands in the sink and leaves the sink empty, so that a caller
    /// can pass the ciphertext on piece by piece.
    pub fn take_output(&mut self) -> (r: Vec<u8>)
        requires
            old(self).wf(),
        ensures
            r@ == old(self).output(),
            final(self).wf(),
            final(self).master() == old(self).master(),
            final(self).salt() == old(self).salt(),
            final(self).written() == old(self).written(),
            final(self).output() == Seq::<u8>::empty(),
    {
        let mut taken: Vec<u8> = Vec::new();
        core::mem::swap(&mut taken, &mut self.output);
        taken
    }

    /// Ends the stream: seals what is buffered, an empty buffer too, as the terminal
    /// block, writes it and gives the sink back. The stream as a whole is then the
    /// encoding of everything written, and decoding it under the same master key
    /// gives exactly that plaintext back.
    pub fn finish(self) -> (r: Result<Vec<u8>, StreamError>)
        requires
            self.wf(),
        ensures
            r.is_ok(),
            r.unwrap()@ == self.output() + terminal(self.session(), self.written()),
            self.wire() + terminal(self.session(), self.written()) == encoded(
                self.master(),
                self.salt(),
                self.written(),
            ),
            terminal(self.session(), self.written()).len() == tail(self.written()).len()
                + TAG_LEN,
            sound(self.session(), self.written(), full_blocks(self.written())),
            decoded(self.master(), encoded(self.master(), self.salt(), self.written())) == Ok::<
                Seq<u8>,
                StreamError,
            >(self.written()),
    {
        let mut this = self;
        let nonce = make_stream_nonce();
        let ghost count = this.position as nat;
        proof {
            assert(full_blocks(this.written@) == count);
            assert(held(this.buffer) =~= tail(this.written@));
        }
        match seal_in_place(&this.key, &nonce, this.position, true, &mut this.buffer) {
            Ok(()) => {
                let mut output = this.output;
                output.extend_from_slice(buffer_bytes(&this.buffer));
                proof {
                    let key = this.key@;
                    let plain = this.written@;
                    let last = terminal(key, plain);
                    let wire = encoded(self.master(), self.salt(), plain);
                    lemma_unframed_frames(key, plain, 0, count, last, tail(plain));
                    assert(plain.subrange(0, count * MAX_CAP) + tail(plain) =~= plain);
                    assert(wire.take(SALT_LEN as int) =~= self.salt());
                    assert(wire.skip(SALT_LEN as int) =~= framed(key, plain));
                    assert(self.wire() + last =~= wire);
                }
                Ok(output)
            },
            Err(_) => Err(StreamError::Capacity),
        }
    }
}

} // verus!
