//! The wire format as mathematics: what a plaintext is framed into, and what a
//! ciphertext stream is read back as.

use crate::buffer::{BLOCK, MAX_CAP, TAG_LEN};
use crate::cipher::{digest, opened, sealed, SALT_LEN};
use crate::error::StreamError;
use vstd::prelude::*;

verus! {

/// The nonce that every stream seals under: the session key is fresh for each stream,
/// so the stream nonce is fixed at seven zero bytes.
pub open spec fn stream_nonce() -> Seq<u8> {
    Seq::new(7, |i: int| 0u8)
}

/// The key that seals one stream: the digest of the master key followed by the salt.
pub open spec fn session_key(master: Seq<u8>, salt: Seq<u8>) -> Seq<u8> {
    digest(master + salt)
}

/// The number of full blocks that `plain` fills.
pub open spec fn full_blocks(plain: Seq<u8>) -> nat {
    plain.len() / (MAX_CAP as nat)
}

/// The plaintext of block `i`, where `plain` fills that block.
pub open spec fn chunk(plain: Seq<u8>, i: nat) -> Seq<u8> {
    plain.subrange(i * MAX_CAP, (i + 1) * MAX_CAP)
}

/// What is left of `plain` after its full blocks: the plaintext of the terminal block.
pub open spec fn tail(plain: Seq<u8>) -> Seq<u8> {
    plain.skip((full_blocks(plain) * MAX_CAP) as int)
}

/// The non-terminal block that carries chunk `i` of `plain`.
pub open spec fn block_at(key: Seq<u8>, plain: Seq<u8>, i: nat) -> Seq<u8> {
    sealed(key, stream_nonce(), i as u32, false, chunk(plain, i))
}

/// The non-terminal blocks `from`, `from + 1`, .. up to but not including `to`, one
/// after the other.
pub open spec fn frames(key: Seq<u8>, plain: Seq<u8>, from: nat, to: nat) -> Seq<u8>
    decreases to - from,
{
    if from >= to {
        Seq::empty()
    } else {
        block_at(key, plain, from) + frames(key, plain, from + 1, to)
    }
}

/// The terminal block of `plain`: its tail, sealed with the terminal flag at the
/// position after the last full block.
pub open spec fn terminal(key: Seq<u8>, plain: Seq<u8>) -> Seq<u8> {
    sealed(key, stream_nonce(), full_blocks(plain) as u32, true, tail(plain))
}

/// Every block of `plain` in order: the full ones, then the terminal one.
pub open spec fn framed(key: Seq<u8>, plain: Seq<u8>) -> Seq<u8> {
    frames(key, plain, 0, full_blocks(plain)) + terminal(key, plain)
}

/// The whole ciphertext stream for `plain`: the salt, then the blocks sealed under the
/// session key.
pub open spec fn encoded(master: Seq<u8>, salt: Seq<u8>, plain: Seq<u8>) -> Seq<u8> {
    salt + framed(session_key(master, salt), plain)
}

/// What opening one block gives: nothing where the block is too short to hold a tag,
/// else what the cipher recovers from it.
pub open spec fn block_opened(key: Seq<u8>, position: nat, last: bool, block: Seq<u8>) -> Option<
    Seq<u8>,
> {
    if block.len() < TAG_LEN {
        None
    } else {
        opened(key, stream_nonce(), position as u32, last, block)
    }
}

/// The plaintext that the blocks in `data` carry, read from `position` on. A run of
/// exactly `BLOCK` bytes is a non-terminal block; whatever shorter run is left at the
/// end, an empty one too, is the terminal block.
pub open spec fn unframed(key: Seq<u8>, position: nat, data: Seq<u8>) -> Result<Seq<u8>, StreamError>
    decreases data.len(),
{
    if data.len() < BLOCK {
        match block_opened(key, position, true, data) {
            Some(plain) => Ok(plain),
            None => Err(StreamError::Authentication),
        }
    } else if position >= u32::MAX {
        Err(StreamError::Exhausted)
    } else {
        match block_opened(key, position, false, data.take(BLOCK as int)) {
            None => Err(StreamError::Authentication),
            Some(plain) => match unframed(key, position + 1, data.skip(BLOCK as int)) {
                Ok(rest) => Ok(plain + rest),
                Err(e) => Err(e),
            },
        }
    }
}

/// The plaintext of a whole ciphertext stream under `master`, or the reason why it has
/// none.
pub open spec fn decoded(master: Seq<u8>, wire: Seq<u8>) -> Result<Seq<u8>, StreamError> {
    if wire.len() < SALT_LEN {
        Err(StreamError::TruncatedHeader)
    } else {
        unframed(
            session_key(master, wire.take(SALT_LEN as int)),
            0,
            wire.skip(SALT_LEN as int),
        )
    }
}

/// Blocks `0 .. count` of `plain` have the full length and open to the chunks they
/// were sealed from.
pub open spec fn sound(key: Seq<u8>, plain: Seq<u8>, count: nat) -> bool {
    forall|i: nat|
        i < count ==> {
            &&& (#[trigger] block_at(key, plain, i)).len() == BLOCK
            &&& opened(key, stream_nonce(), i as u32, false, block_at(key, plain, i)) == Some(
                chunk(plain, i),
            )
        }
}

/// A chunk that `plain` fills stays the same when more plaintext follows.
pub proof fn lemma_chunk_stable(plain: Seq<u8>, more: Seq<u8>, i: nat)
    requires
        (i + 1) * MAX_CAP <= plain.len(),
    ensures
        chunk(plain + more, i) == chunk(plain, i),
{
    assert(chunk(plain + more, i) =~= chunk(plain, i));
}

/// The blocks that `plain` fills stay the same when more plaintext follows.
pub proof fn lemma_frames_stable(key: Seq<u8>, plain: Seq<u8>, more: Seq<u8>, from: nat, to: nat)
    requires
        to * MAX_CAP <= plain.len(),
    ensures
        frames(key, plain + more, from, to) == frames(key, plain, from, to),
    decreases to - from,
{
    if from < to {
        lemma_chunk_stable(plain, more, from);
        lemma_frames_stable(key, plain, more, from + 1, to);
    }
}

/// One more block at the end extends the run of blocks by that block.
pub proof fn lemma_frames_push(key: Seq<u8>, plain: Seq<u8>, from: nat, to: nat)
    requires
        from <= to,
    ensures
        frames(key, plain, from, to + 1) == frames(key, plain, from, to) + block_at(key, plain, to),
    decreases to - from,
{
    if from < to {
        lemma_frames_push(key, plain, from + 1, to);
        assert(frames(key, plain, from, to + 1) =~= frames(key, plain, from, to) + block_at(
            key,
            plain,
            to,
        ));
    } else {
        assert(frames(key, plain, to + 1, to + 1) =~= Seq::<u8>::empty());
        assert(frames(key, plain, from, to + 1) =~= frames(key, plain, from, to) + block_at(
            key,
            plain,
            to,
        ));
    }
}

/// Blocks that are sound stay sound when more plaintext follows.
pub proof fn lemma_sound_stable(key: Seq<u8>, plain: Seq<u8>, more: Seq<u8>, count: nat)
    requires
        sound(key, plain, count),
        count * MAX_CAP <= plain.len(),
    ensures
        sound(key, plain + more, count),
{
    assert forall|i: nat| i < count implies {
        &&& (#[trigger] block_at(key, plain + more, i)).len() == BLOCK
        &&& opened(key, stream_nonce(), i as u32, false, block_at(key, plain + more, i)) == Some(
            chunk(plain + more, i),
        )
    } by {
        lemma_chunk_stable(plain, more, i);
        assert(block_at(key, plain, i).len() == BLOCK);
    }
}

/// Sound blocks followed by a terminal block that opens are read back as the
/// plaintext they were sealed from.
pub proof fn lemma_unframed_frames(
    key: Seq<u8>,
    plain: Seq<u8>,
    from: nat,
    count: nat,
    last: Seq<u8>,
    rest: Seq<u8>,
)
    requires
        sound(key, plain, count),
        from <= count <= u32::MAX,
        count * MAX_CAP <= plain.len(),
        TAG_LEN <= last.len() < BLOCK,
        opened(key, stream_nonce(), count as u32, true, last) == Some(rest),
    ensures
        unframed(key, from, frames(key, plain, from, count) + last) == Ok::<
            Seq<u8>,
            StreamError,
        >(plain.subrange(from * MAX_CAP, count * MAX_CAP) + rest),
    decreases count - from,
{
    let data = frames(key, plain, from, count) + last;
    if from == count {
        assert(data =~= last);
        assert(plain.subrange(from * MAX_CAP, count * MAX_CAP) + rest =~= rest);
    } else {
        let head = block_at(key, plain, from);
        let after = frames(key, plain, from + 1, count) + last;
        assert(head.len() == BLOCK);
        assert(data =~= head + after);
        assert(data.take(BLOCK as int) =~= head);
        assert(data.skip(BLOCK as int) =~= after);
        lemma_unframed_frames(key, plain, from + 1, count, last, rest);
        assert(chunk(plain, from) + (plain.subrange((from + 1) * MAX_CAP, count * MAX_CAP) + rest)
            =~= plain.subrange(from * MAX_CAP, count * MAX_CAP) + rest);
    }
}

/// A run of sound blocks is as long as its blocks together.
pub proof fn lemma_frames_len(key: Seq<u8>, plain: Seq<u8>, from: nat, to: nat, count: nat)
    requires
        sound(key, plain, count),
        from <= to <= count,
    ensures
        frames(key, plain, from, to).len() == (to - from) * BLOCK,
    decreases to - from,
{
    if from < to {
        lemma_frames_len(key, plain, from + 1, to, count);
        assert(block_at(key, plain, from).len() == BLOCK);
    }
}

/// A stream that ends on a block boundary, or less than a tag's length behind one,
/// has no terminal block and is never read back as a plaintext.
pub proof fn lemma_cut_short(key: Seq<u8>, position: nat, data: Seq<u8>)
    requires
        data.len() % (BLOCK as nat) < TAG_LEN,
    ensures
        unframed(key, position, data).is_err(),
    decreases data.len(),
{
    if data.len() >= BLOCK && position < u32::MAX {
        let after = data.skip(BLOCK as int);
        assert(after.len() == data.len() - BLOCK);
        assert(after.len() % (BLOCK as nat) == data.len() % (BLOCK as nat));
        lemma_cut_short(key, position + 1, after);
    }
}

/// A ciphertext stream whose blocks end on a block boundary, or less than a tag's length
/// behind one, has lost its terminal block: it decodes under no key.
pub proof fn lemma_truncated_stream(master: Seq<u8>, wire: Seq<u8>)
    requires
        wire.len() >= SALT_LEN,
        (wire.len() - SALT_LEN) % (BLOCK as int) < TAG_LEN,
    ensures
        decoded(master, wire).is_err(),
{
    let key = session_key(master, wire.take(SALT_LEN as int));
    lemma_cut_short(key, 0, wire.skip(SALT_LEN as int));
}

/// Streams under different salts differ, whatever they carry: an encoding is not
/// repeated unless its salt is.
pub proof fn lemma_salts_tell_apart(
    master: Seq<u8>,
    first: Seq<u8>,
    second: Seq<u8>,
    plain: Seq<u8>,
    other: Seq<u8>,
)
    requires
        first.len() == SALT_LEN,
        second.len() == SALT_LEN,
        first != second,
    ensures
        encoded(master, first, plain) != encoded(master, second, other),
{
    assert(encoded(master, first, plain).take(SALT_LEN as int) =~= first);
    assert(encoded(master, second, other).take(SALT_LEN as int) =~= second);
}

/// A stream shorter than a salt is refused as truncated, whatever the key.
pub proof fn lemma_short_header(master: Seq<u8>, wire: Seq<u8>)
    requires
        wire.len() < SALT_LEN,
    ensures
        decoded(master, wire) == Err::<Seq<u8>, StreamError>(StreamError::TruncatedHeader),
{
}

/// Whether block `i` of `data` is the terminal one: fewer than `BLOCK` bytes follow
/// where it begins.
pub open spec fn is_last_block(data: Seq<u8>, i: nat) -> bool {
    data.len() < (i + 1) * BLOCK
}

/// The bytes of block `i` of `data`: `BLOCK` bytes, or for the terminal block what is
/// left.
pub open spec fn nth_block(data: Seq<u8>, i: nat) -> Seq<u8> {
    if is_last_block(data, i) {
        data.skip(i * BLOCK)
    } else {
        data.subrange(i * BLOCK, (i + 1) * BLOCK)
    }
}

/// One block that does not authenticate spoils the stream: whatever the other blocks
/// hold, nothing is read back.
pub proof fn lemma_unauthentic_block(key: Seq<u8>, position: nat, data: Seq<u8>, i: nat)
    requires
        i * BLOCK <= data.len(),
        block_opened(key, position + i, is_last_block(data, i), nth_block(data, i)).is_none(),
    ensures
        unframed(key, position, data).is_err(),
    decreases i,
{
    if i == 0 {
        assert(data.skip(0) =~= data);
        assert(data.subrange(0, BLOCK as int) =~= data.take(BLOCK as int));
    } else if position < u32::MAX {
        let after = data.skip(BLOCK as int);
        let j = (i - 1) as nat;
        assert(is_last_block(after, j) == is_last_block(data, i));
        assert(nth_block(after, j) =~= nth_block(data, i));
        lemma_unauthentic_block(key, position + 1, after, j);
    }
}

/// Tampering that the cipher notices is never passed over: a ciphertext stream with a
/// block that does not authenticate under the session key decodes to nothing.
pub proof fn lemma_tampered_stream(master: Seq<u8>, wire: Seq<u8>, i: nat)
    requires
        wire.len() >= SALT_LEN + i * BLOCK,
        ({
            let key = session_key(master, wire.take(SALT_LEN as int));
            let data = wire.skip(SALT_LEN as int);
            block_opened(key, i, is_last_block(data, i), nth_block(data, i)).is_none()
        }),
    ensures
        decoded(master, wire).is_err(),
{
    let key = session_key(master, wire.take(SALT_LEN as int));
    lemma_unauthentic_block(key, 0, wire.skip(SALT_LEN as int), i);
}

/// Bytes added behind a stream fall into the block that was its terminal one. Where
/// the cipher does not take the block so lengthened for authentic, the longer stream
/// decodes to nothing.
pub proof fn lemma_extended_stream(master: Seq<u8>, wire: Seq<u8>, extra: Seq<u8>)
    requires
        wire.len() >= SALT_LEN,
        extra.len() > 0,
        ({
            let long = wire + extra;
            let key = session_key(master, long.take(SALT_LEN as int));
            let data = long.skip(SALT_LEN as int);
            let i = ((wire.len() - SALT_LEN) / (BLOCK as int)) as nat;
            block_opened(key, i, is_last_block(data, i), nth_block(data, i)).is_none()
        }),
    ensures
        decoded(master, wire + extra).is_err(),
{
    let i = ((wire.len() - SALT_LEN) / (BLOCK as int)) as nat;
    lemma_tampered_stream(master, wire + extra, i);
}

} // verus!
