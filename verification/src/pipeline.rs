//! Whole streams at once: the copy loop, the framing codec end to end, and the codec
//! under compression.

use crate::buffer::{BLOCK, MAX_CAP, TAG_LEN};
use crate::cipher::{make_nonce, SALT_LEN};
use crate::codec::{compressed, decompressed, deflate, inflate};
use crate::cryptor::Cryptor;
use crate::decryptor::Decryptor;
use crate::error::StreamError;
use crate::framing::{
    block_opened, decoded, encoded, frames, framed, full_blocks, is_last_block, lemma_cut_short,
    lemma_frames_len, lemma_tampered_stream, nth_block, session_key, tail, terminal, unframed,
};
use vstd::prelude::*;
use vstd::slice::{slice_subrange, slice_to_vec};

verus! {

/// Bytes of the scratch buffer that the copy loops move data through.
pub const BUF_LEN: usize = 8192;

/// The compression level of the encoding pipeline.
pub const LEVEL: i32 = 9;

/// A scratch buffer of `L` zero bytes.
pub fn make_buffer<const L: usize>() -> (r: [u8; L])
    ensures
        forall|i: int| 0 <= i < L ==> r@[i] == 0u8,
{
    [0u8; L]
}

/// Copies the next bytes of `input`, from `offset` on, into `buf`: as many as there
/// are, or as fit.
fn fetch(input: &[u8], offset: usize, buf: &mut [u8]) -> (n: usize)
    requires
        offset <= input@.len(),
    ensures
        n == if old(buf)@.len() < input@.len() - offset {
            old(buf)@.len()
        } else {
            (input@.len() - offset) as nat
        },
        final(buf)@.len() == old(buf)@.len(),
        final(buf)@.take(n as int) == input@.subrange(offset as int, offset + n),
{
    let total: usize = input.len();
    let left: usize = total - offset;
    let n: usize = if buf.len() < left {
        buf.len()
    } else {
        left
    };
    let mut i: usize = 0;
    while i < n
        invariant
            i <= n,
            n <= buf@.len(),
            offset + n <= total,
            total == input@.len(),
            buf@.len() == old(buf)@.len(),
            buf@.take(i as int) =~= input@.subrange(offset as int, offset + i),
        decreases n - i,
    {
        buf[i] = input[offset + i];
        i = i + 1;
    }
    n
}

/// Copies all of `input` to the end of `output`, through one scratch buffer of
/// `BUF_LEN` bytes, until a read of no bytes shows the end.
pub fn stream(input: &[u8], output: &mut Vec<u8>) -> (r: Result<(), StreamError>)
    ensures
        r.is_ok(),
        final(output)@ == old(output)@ + input@,
{
    let mut buf = make_buffer::<BUF_LEN>();
    let mut offset: usize = 0;
    let total: usize = input.len();
    loop
        invariant
            total == input@.len(),
            offset <= input@.len(),
            output@ == old(output)@ + input@.take(offset as int),
        ensures
            offset == input@.len(),
            output@ == old(output)@ + input@.take(offset as int),
        decreases input@.len() - offset,
    {
        let bytes = fetch(input, offset, &mut buf);
        if bytes == 0 {
            break ;
        }
        output.extend_from_slice(slice_subrange(buf.as_slice(), 0, bytes));
        proof {
            assert(input@.take(offset as int) + input@.subrange(offset as int, offset + bytes)
                =~= input@.take(offset + bytes));
        }
        offset = offset + bytes;
    }
    assert(input@.take(offset as int) =~= input@);
    Ok(())
}

/// The plaintext of a compressed and framed stream under `master`, or the reason why
/// it has none.
pub open spec fn decrypted(master: Seq<u8>, wire: Seq<u8>) -> Result<Seq<u8>, StreamError> {
    match decoded(master, wire) {
        Ok(packed) => match decompressed(packed) {
            Some(plain) => Ok(plain),
            None => Err(StreamError::Compression),
        },
        Err(e) => Err(e),
    }
}

/// Tampering that the cipher notices stops the decoding pipeline: a stream with a
/// block that does not authenticate under the session key decrypts to nothing.
pub proof fn lemma_tampered_decrypt(master: Seq<u8>, wire: Seq<u8>, i: nat)
    requires
        wire.len() >= SALT_LEN + i * BLOCK,
        ({
            let key = session_key(master, wire.take(SALT_LEN as int));
            let data = wire.skip(SALT_LEN as int);
            block_opened(key, i, is_last_block(data, i), nth_block(data, i)).is_none()
        }),
    ensures
        decrypted(master, wire).is_err(),
{
    lemma_tampered_stream(master, wire, i);
}

/// What comes of reading on after `done`.
pub open spec fn joined(done: Seq<u8>, rest: Result<Seq<u8>, StreamError>) -> Result<
    Seq<u8>,
    StreamError,
> {
    match rest {
        Ok(more) => Ok(done + more),
        Err(e) => Err(e),
    }
}

/// Frames and seals `plain` under `key` and the given salt, and appends the ciphertext
/// stream to `output`: the salt, one block of `BLOCK` bytes for every `MAX_CAP` bytes
/// of plaintext, and a terminal block for what is left, which may be nothing. The
/// stream decodes to `plain` under the same key; without its terminal block it does
/// not decode at all. The call fails only where `plain` would need more blocks than
/// the counter can number.
pub fn encode_with_salt(key: [u8; 32], salt: [u8; 24], plain: &[u8], output: &mut Vec<u8>) -> (r:
    Result<(), StreamError>)
    ensures
        r.is_err() <==> full_blocks(plain@) > u32::MAX,
        match r {
            Ok(()) => {
                let session = session_key(key@, salt@);
                let blocks = frames(session, plain@, 0, full_blocks(plain@));
                &&& final(output)@ == old(output)@ + encoded(key@, salt@, plain@)
                &&& blocks.len() == full_blocks(plain@) * BLOCK
                &&& terminal(session, plain@).len() == plain@.len() % (MAX_CAP as nat) + TAG_LEN
                &&& encoded(key@, salt@, plain@) != plain@
                &&& decoded(key@, encoded(key@, salt@, plain@)) == Ok::<Seq<u8>, StreamError>(
                    plain@,
                )
                &&& decoded(key@, salt@ + blocks).is_err()
            },
            Err(e) => e == StreamError::Exhausted && final(output)@ == old(output)@,
        },
{
    let mut cryptor = Cryptor::with_salt(key, salt, Vec::new());
    assert(plain@ =~= Seq::<u8>::empty() + plain@);
    match cryptor.write(plain) {
        Ok(_) => {},
        Err(e) => {
            return Err(e);
        },
    }
    let ghost session = session_key(key@, salt@);
    let ghost count = full_blocks(plain@);
    let ghost blocks = frames(session, plain@, 0, count);
    assert(cryptor.output() =~= salt@ + blocks);
    match cryptor.finish() {
        Ok(wire) => {
            proof {
                lemma_frames_len(session, plain@, 0, count, count);
                assert(wire@ =~= encoded(key@, salt@, plain@));
                assert(tail(plain@).len() == plain@.len() % (MAX_CAP as nat));
                let cut = salt@ + blocks;
                assert(cut.take(SALT_LEN as int) =~= salt@);
                assert(cut.skip(SALT_LEN as int) =~= blocks);
                assert(blocks.len() % (BLOCK as nat) == 0);
                lemma_cut_short(session, 0, blocks);
            }
            output.extend_from_slice(wire.as_slice());
            Ok(())
        },
        Err(e) => Err(e),
    }
}

/// Frames and seals `plain` under a fresh random salt and appends the ciphertext
/// stream to `output`. Whatever salt was drawn, the stream has the shape and the
/// properties that `encode_with_salt` gives it. Besides the counter's limit, the call
/// fails only where the operating system gives no random bytes.
pub fn encode(key: [u8; 32], plain: &[u8], output: &mut Vec<u8>) -> (r: Result<(), StreamError>)
    ensures
        full_blocks(plain@) > u32::MAX ==> r.is_err(),
        match r {
            Ok(()) => {
                &&& full_blocks(plain@) <= u32::MAX
                &&& exists|salt: Seq<u8>|
                    {
                        let session = session_key(key@, salt);
                        let blocks = frames(session, plain@, 0, full_blocks(plain@));
                        &&& salt.len() == SALT_LEN
                        &&& final(output)@ == old(output)@ + #[trigger] encoded(
                            key@,
                            salt,
                            plain@,
                        )
                        &&& blocks.len() == full_blocks(plain@) * BLOCK
                        &&& terminal(session, plain@).len() == plain@.len() % (MAX_CAP as nat)
                            + TAG_LEN
                        &&& encoded(key@, salt, plain@) != plain@
                        &&& decoded(key@, encoded(key@, salt, plain@)) == Ok::<
                            Seq<u8>,
                            StreamError,
                        >(plain@)
                        &&& decoded(key@, salt + blocks).is_err()
                    }
            },
            Err(e) => {
                &&& final(output)@ == old(output)@
                &&& e == StreamError::Entropy || (e == StreamError::Exhausted && full_blocks(
                    plain@,
                ) > u32::MAX)
            },
        },
{
    match make_nonce() {
        Some(salt) => {
            let r = encode_with_salt(key, salt, plain, output);
            proof {
                if r.is_ok() {
                    assert(encoded(key@, salt@, plain@) == encoded(key@, salt@, plain@));
                }
            }
            r
        },
        None => Err(StreamError::Entropy),
    }
}

/// Reads a whole ciphertext stream back: takes the salt, opens block after block, and
/// appends the plaintext to `output`. Where any block fails, nothing is appended.
pub fn decode(key: [u8; 32], wire: &[u8], output: &mut Vec<u8>) -> (r: Result<(), StreamError>)
    ensures
        match decoded(key@, wire@) {
            Ok(plain) => r.is_ok() && final(output)@ == old(output)@ + plain,
            Err(e) => r == Err::<(), StreamError>(e) && final(output)@ == old(output)@,
        },
{
    let mut decryptor = match Decryptor::new(key, slice_to_vec(wire)) {
        Ok(d) => d,
        Err(e) => {
            return Err(e);
        },
    };
    let ghost goal = decoded(key@, wire@);
    let mut plain: Vec<u8> = Vec::new();
    let mut buf = make_buffer::<BUF_LEN>();
    assert(Seq::<u8>::empty() + Seq::<u8>::empty() =~= Seq::<u8>::empty());
    assert(forall|s: Seq<u8>| Seq::<u8>::empty() + s =~= s);
    loop
        invariant
            decryptor.wf(),
            goal == decoded(key@, wire@),
            goal == joined(plain@, decryptor.rest()),
            buf@.len() == BUF_LEN,
            output@ == old(output)@,
        ensures
            goal == decoded(key@, wire@),
            goal == Ok::<Seq<u8>, StreamError>(plain@),
            output@ == old(output)@,
        decreases
            (if decryptor.finished() || decryptor.failure().is_some() {
                0
            } else {
                decryptor.remaining().len() + 1
            }) * 8193 + decryptor.pending().len(),
    {
        let ghost before = decryptor;
        let ghost done = plain@;
        let ghost later = unframed(before.session(), before.position(), before.remaining());
        proof {
            before.lemma_failed_is_drained();
        }
        match decryptor.read(&mut buf) {
            Ok(n) => {
                if n == 0 {
                    assert(plain@ + Seq::<u8>::empty() =~= plain@);
                    assert(decryptor.pending() =~= Seq::<u8>::empty());
                    break ;
                }
                plain.extend_from_slice(slice_subrange(buf.as_slice(), 0, n));
                proof {
                    let got = buf@.subrange(0, n as int);
                    let left = decryptor.pending();
                    assert(plain@ == done + got);
                    if before.pending().len() > 0 {
                        let had = before.pending();
                        assert(got =~= had.take(n as int));
                        assert(had =~= got + left);
                        if before.finished() {
                            assert(done + had =~= (done + got) + left);
                        } else if later.is_ok() {
                            assert(done + (had + later.unwrap()) =~= (done + got) + (left
                                + later.unwrap()));
                        }
                    } else {
                        let fresh = before.next_plain().unwrap();
                        assert(before.pending() =~= Seq::<u8>::empty());
                        assert(got =~= fresh.take(n as int));
                        assert(fresh =~= got + left);
                        if before.next_is_last() {
                            assert(later == Ok::<Seq<u8>, StreamError>(fresh));
                            assert(done + (before.pending() + fresh) =~= (done + got) + left);
                        } else {
                            let next = unframed(
                                decryptor.session(),
                                decryptor.position(),
                                decryptor.remaining(),
                            );
                            assert(before.next_block().len() == BLOCK);
                            assert(later == joined(fresh, next));
                            if next.is_ok() {
                                assert(done + (before.pending() + (fresh + next.unwrap())) =~= (
                                done + got) + (left + next.unwrap()));
                            }
                        }
                    }
                }
            },
            Err(e) => {
                return Err(e);
            },
        }
    }
    output.extend_from_slice(plain.as_slice());
    Ok(())
}

/// Compresses `input` at `LEVEL` and appends the result to `output`. It succeeds
/// wherever the encoder does, and decompressing what was appended gives `input` back.
pub fn pack(input: &[u8], output: &mut Vec<u8>) -> (r: Result<(), StreamError>)
    ensures
        match compressed(input@, LEVEL) {
            Some(packed) => {
                &&& r.is_ok()
                &&& final(output)@ == old(output)@ + packed
                &&& decompressed(packed) == Some(input@)
            },
            None => {
                &&& r == Err::<(), StreamError>(StreamError::Compression)
                &&& final(output)@ == old(output)@
            },
        },
{
    match deflate(input, LEVEL) {
        Some(packed) => stream(packed.as_slice(), output),
        None => Err(StreamError::Compression),
    }
}

/// Decompresses `input` and appends the result to `output`, or fails where `input` is
/// not what the codec wrote.
pub fn unpack(input: &[u8], output: &mut Vec<u8>) -> (r: Result<(), StreamError>)
    ensures
        match decompressed(input@) {
            Some(plain) => r.is_ok() && final(output)@ == old(output)@ + plain,
            None => r == Err::<(), StreamError>(StreamError::Compression) && final(output)@
                == old(output)@,
        },
{
    match inflate(input) {
        Some(plain) => stream(plain.as_slice(), output),
        None => Err(StreamError::Compression),
    }
}

/// The encoding pipeline: compresses `input` at `LEVEL`, frames and seals the result
/// under a fresh salt, and appends the ciphertext stream to `output`. Where the encoder
/// fails the call fails with `Compression`; where the compressed bytes would need more
/// blocks than the counter can number it fails too; beyond that only the random source
/// can make it fail. What was appended is read back as `input` under the same key.
pub fn encrypt(key: [u8; 32], input: &[u8], output: &mut Vec<u8>) -> (r: Result<(), StreamError>)
    ensures
        match compressed(input@, LEVEL) {
            None => {
                &&& r == Err::<(), StreamError>(StreamError::Compression)
                &&& final(output)@ == old(output)@
            },
            Some(packed) => match r {
                Ok(()) => {
                    &&& full_blocks(packed) <= u32::MAX
                    &&& exists|salt: Seq<u8>|
                        {
                            &&& salt.len() == SALT_LEN
                            &&& final(output)@ == old(output)@ + #[trigger] encoded(
                                key@,
                                salt,
                                packed,
                            )
                            &&& decrypted(key@, encoded(key@, salt, packed)) == Ok::<
                                Seq<u8>,
                                StreamError,
                            >(input@)
                        }
                },
                Err(e) => {
                    &&& final(output)@ == old(output)@
                    &&& e == StreamError::Entropy || (e == StreamError::Exhausted
                        && full_blocks(packed) > u32::MAX)
                },
            },
        },
        r.is_ok() ==> {
            &&& old(output)@.len() <= final(output)@.len()
            &&& final(output)@.take(old(output)@.len() as int) == old(output)@
            &&& decrypted(key@, final(output)@.skip(old(output)@.len() as int)) == Ok::<
                Seq<u8>,
                StreamError,
            >(input@)
        },
{
    let mut packed: Vec<u8> = Vec::new();
    match pack(input, &mut packed) {
        Ok(()) => {},
        Err(e) => {
            return Err(e);
        },
    }
    assert(packed@ =~= Seq::<u8>::empty() + packed@);
    let ghost before = output@;
    match encode(key, packed.as_slice(), output) {
        Ok(()) => {
            proof {
                let salt = choose|salt: Seq<u8>|
                    salt.len() == SALT_LEN && output@ == before + #[trigger] encoded(
                        key@,
                        salt,
                        packed@,
                    ) && decoded(key@, encoded(key@, salt, packed@)) == Ok::<
                        Seq<u8>,
                        StreamError,
                    >(packed@);
                let wire = encoded(key@, salt, packed@);
                assert(output@.take(before.len() as int) =~= before);
                assert(output@.skip(before.len() as int) =~= wire);
            }
            Ok(())
        },
        Err(e) => Err(e),
    }
}

/// The decoding pipeline: reads the ciphertext stream `input` back, decompresses the
/// result and appends the plaintext to `output`. Where any step fails, nothing is
/// appended.
pub fn decrypt(key: [u8; 32], input: &[u8], output: &mut Vec<u8>) -> (r: Result<(), StreamError>)
    ensures
        match decrypted(key@, input@) {
            Ok(plain) => r.is_ok() && final(output)@ == old(output)@ + plain,
            Err(e) => r == Err::<(), StreamError>(e) && final(output)@ == old(output)@,
        },
{
    let mut packed: Vec<u8> = Vec::new();
    match decode(key, input, &mut packed) {
        Ok(()) => {},
        Err(e) => {
            return Err(e);
        },
    }
    assert(forall|s: Seq<u8>| Seq::<u8>::empty() + s =~= s);
    unpack(packed.as_slice(), output)
}

} // verus!
