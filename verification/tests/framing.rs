use peanut::cryptor::{make_stream_nonce, Cryptor};
use peanut::decryptor::Decryptor;
use peanut::error::StreamError;
use peanut::pipeline::{decode, encode, encode_with_salt, make_buffer, pack, unpack};

const BLOCK: usize = 8192;
const CAP: usize = 8176;
const SALT: usize = 24;
const TAG: usize = 16;

fn sample(len: usize) -> Vec<u8> {
    (0..len).map(|i| (i * 31 + 7) as u8).collect()
}

fn sealed(key: [u8; 32], salt: [u8; 24], plain: &[u8]) -> Vec<u8> {
    let mut wire = Vec::new();
    encode_with_salt(key, salt, plain, &mut wire).unwrap();
    wire
}

fn opened(key: [u8; 32], wire: &[u8]) -> Result<Vec<u8>, StreamError> {
    let mut plain = Vec::new();
    decode(key, wire, &mut plain).map(|()| plain)
}

#[test]
fn derive_is_the_digest_of_key_and_salt() {
    let expected: [u8; 32] = [
        212, 129, 122, 165, 73, 118, 40, 231, 199, 126, 107, 96, 97, 7, 4, 43, 187, 163, 19, 8,
        136, 197, 244, 122, 55, 94, 97, 121, 190, 120, 159, 187,
    ];
    assert_eq!(peanut::cryptor::derive(&[0u8; 32], &[0u8; 24]), expected);

    let mut master = [0u8; 32];
    for (i, byte) in master.iter_mut().enumerate() {
        *byte = i as u8;
    }
    let mut salt = [0u8; 24];
    for (i, byte) in salt.iter_mut().enumerate() {
        *byte = 100 + i as u8;
    }
    let expected: [u8; 32] = [
        45, 165, 52, 200, 23, 171, 136, 101, 119, 25, 71, 14, 143, 98, 142, 151, 1, 233, 247, 217,
        34, 228, 244, 100, 135, 42, 157, 35, 93, 114, 1, 174,
    ];
    assert_eq!(peanut::cryptor::derive(&master, &salt), expected);
}

#[test]
fn stream_nonce_is_seven_zero_bytes() {
    assert_eq!(make_stream_nonce(), [0u8; 7]);
}

#[test]
fn scratch_buffer_is_zeroed() {
    assert_eq!(make_buffer::<5>(), [0u8; 5]);
    assert_eq!(make_buffer::<0>(), [0u8; 0]);
}

#[test]
fn framing_round_trips_at_every_boundary() {
    let key = [7u8; 32];
    for len in [0, 1, 15, 16, CAP - 1, CAP, CAP + 1, 2 * CAP - 1, 2 * CAP, 2 * CAP + 1, 5 * CAP + 123] {
        let plain = sample(len);
        let mut wire = Vec::new();
        encode(key, &plain, &mut wire).unwrap();
        assert_eq!(opened(key, &wire), Ok(plain), "length {len}");
    }
}

#[test]
fn wire_length_counts_full_blocks_and_one_terminal_block() {
    let key = [1u8; 32];
    let salt = [2u8; 24];
    for k in 0..4usize {
        let wire = sealed(key, salt, &sample(k * CAP));
        assert_eq!(wire.len(), SALT + k * BLOCK + TAG, "{k} full blocks");
    }
    for (len, full, rest) in [(1usize, 0usize, 1usize), (CAP - 1, 0, CAP - 1), (CAP + 1, 1, 1), (3 * CAP + 500, 3, 500)] {
        let wire = sealed(key, salt, &sample(len));
        assert_eq!(wire.len(), SALT + full * BLOCK + rest + TAG, "length {len}");
    }
}

#[test]
fn empty_plaintext_is_salt_and_one_tag() {
    let wire = sealed([0u8; 32], [9u8; 24], &[]);
    assert_eq!(wire.len(), 40);
    assert_eq!(&wire[..24], &[9u8; 24]);
    assert_eq!(opened([0u8; 32], &wire), Ok(Vec::new()));
}

#[test]
fn stream_begins_with_the_salt_and_hides_the_plaintext() {
    let plain = sample(300);
    let salt = [0xabu8; 24];
    let wire = sealed([3u8; 32], salt, &plain);
    assert_eq!(&wire[..24], &salt);
    assert_ne!(wire, plain);
    assert_ne!(&wire[24..24 + 300], plain.as_slice());
}

#[test]
fn encoding_is_determined_by_key_salt_and_plaintext() {
    let plain = sample(CAP + 40);
    let first = sealed([3u8; 32], [4u8; 24], &plain);
    let again = sealed([3u8; 32], [4u8; 24], &plain);
    assert_eq!(first, again);
    let other_salt = sealed([3u8; 32], [5u8; 24], &plain);
    assert_ne!(first, other_salt);
    assert_ne!(first[24..], other_salt[24..]);
    let other_key = sealed([6u8; 32], [4u8; 24], &plain);
    assert_ne!(first[24..], other_key[24..]);
}

#[test]
fn two_encodings_use_different_salts() {
    let plain = sample(64);
    let mut first = Vec::new();
    let mut second = Vec::new();
    encode([0u8; 32], &plain, &mut first).unwrap();
    encode([0u8; 32], &plain, &mut second).unwrap();
    assert_ne!(first[..24], second[..24]);
    assert_ne!(first, second);
}

#[test]
fn encode_appends_to_what_the_sink_holds() {
    let mut sink = vec![1u8, 2, 3];
    encode_with_salt([0u8; 32], [0u8; 24], b"abc", &mut sink).unwrap();
    assert_eq!(&sink[..3], &[1, 2, 3]);
    assert_eq!(sink.len(), 3 + 24 + 3 + 16);
    assert_eq!(opened([0u8; 32], &sink[3..]), Ok(b"abc".to_vec()));
}

#[test]
fn decode_appends_and_leaves_the_sink_alone_on_failure() {
    let wire = sealed([0u8; 32], [0u8; 24], b"hello");
    let mut sink = vec![9u8];
    decode([0u8; 32], &wire, &mut sink).unwrap();
    assert_eq!(sink, b"\x09hello".to_vec());

    let long = sealed([0u8; 32], [0u8; 24], &sample(CAP + 10));
    let mut damaged = long.clone();
    let last = damaged.len() - 1;
    damaged[last] ^= 1;
    let mut sink = vec![9u8];
    assert_eq!(decode([0u8; 32], &damaged, &mut sink), Err(StreamError::Authentication));
    assert_eq!(sink, vec![9u8]);
}

#[test]
fn short_header_is_refused() {
    for len in 0..24usize {
        let wire = vec![0u8; len];
        assert_eq!(opened([0u8; 32], &wire), Err(StreamError::TruncatedHeader));
        assert!(matches!(
            Decryptor::new([0u8; 32], wire),
            Err(StreamError::TruncatedHeader)
        ));
    }
    assert!(Decryptor::new([0u8; 32], vec![0u8; 24]).is_ok());
}

#[test]
fn salt_alone_does_not_decode() {
    assert_eq!(opened([0u8; 32], &[0u8; 24]), Err(StreamError::Authentication));
}

#[test]
fn every_flipped_bit_is_detected_in_a_short_stream() {
    let key = [0x11u8; 32];
    let plain = sample(50);
    let wire = sealed(key, [0x22u8; 24], &plain);
    assert_eq!(opened(key, &wire), Ok(plain));
    for at in 0..wire.len() {
        for bit in 0..8 {
            let mut damaged = wire.clone();
            damaged[at] ^= 1 << bit;
            assert_eq!(
                opened(key, &damaged),
                Err(StreamError::Authentication),
                "byte {at} bit {bit}"
            );
        }
    }
}

#[test]
fn flipped_bits_are_detected_in_every_block() {
    let key = [0x11u8; 32];
    let wire = sealed(key, [0x22u8; 24], &sample(2 * CAP + 100));
    let places = [
        SALT,
        SALT + 1000,
        SALT + BLOCK - TAG,
        SALT + BLOCK - 1,
        SALT + BLOCK,
        SALT + 2 * BLOCK - 1,
        SALT + 2 * BLOCK,
        wire.len() - TAG,
        wire.len() - 1,
    ];
    for at in places {
        for bit in [0, 3, 7] {
            let mut damaged = wire.clone();
            damaged[at] ^= 1 << bit;
            assert_eq!(opened(key, &damaged), Err(StreamError::Authentication), "byte {at}");
        }
    }
}

#[test]
fn wrong_key_does_not_decode() {
    let wire = sealed([1u8; 32], [0u8; 24], b"payload");
    assert_eq!(opened([2u8; 32], &wire), Err(StreamError::Authentication));
}

#[test]
fn missing_terminal_block_is_detected() {
    let key = [5u8; 32];
    for k in 0..3usize {
        let wire = sealed(key, [6u8; 24], &sample(k * CAP + 77));
        let cut = &wire[..SALT + k * BLOCK];
        assert_eq!(opened(key, cut), Err(StreamError::Authentication), "{k} full blocks");
    }
}

#[test]
fn truncation_anywhere_is_detected() {
    let key = [5u8; 32];
    let wire = sealed(key, [6u8; 24], &sample(CAP + 77));
    for keep in [24, 25, 39, 40, 41, SALT + BLOCK - 1, SALT + BLOCK, SALT + BLOCK + 1, wire.len() - 1] {
        assert!(opened(key, &wire[..keep]).is_err(), "kept {keep}");
    }
}

#[test]
fn trailing_bytes_are_detected() {
    let key = [5u8; 32];
    for len in [0usize, 10, CAP, CAP + 77] {
        let wire = sealed(key, [6u8; 24], &sample(len));
        for extra in [1usize, 16, BLOCK - 1, BLOCK, BLOCK + 1] {
            let mut longer = wire.clone();
            longer.extend(std::iter::repeat(0u8).take(extra));
            assert_eq!(
                opened(key, &longer),
                Err(StreamError::Authentication),
                "length {len}, {extra} more"
            );
        }
    }
}

#[test]
fn blocks_cannot_be_swapped_or_repeated() {
    let key = [8u8; 32];
    let wire = sealed(key, [6u8; 24], &sample(2 * CAP + 5));
    let (salt, rest) = wire.split_at(SALT);
    let (first, rest) = rest.split_at(BLOCK);
    let (second, last) = rest.split_at(BLOCK);

    let swapped = [salt, second, first, last].concat();
    assert_eq!(opened(key, &swapped), Err(StreamError::Authentication));

    let repeated = [salt, first, first, second, last].concat();
    assert_eq!(opened(key, &repeated), Err(StreamError::Authentication));

    let dropped = [salt, first, last].concat();
    assert_eq!(opened(key, &dropped), Err(StreamError::Authentication));
}

#[test]
fn terminal_block_is_not_accepted_early() {
    let key = [8u8; 32];
    let short = sealed(key, [6u8; 24], &sample(10));
    let long = sealed(key, [6u8; 24], &sample(CAP + 10));
    // Both terminal blocks carry ten bytes, but at different positions.
    let spliced = [&long[..SALT], &short[SALT..]].concat();
    assert!(opened(key, &spliced).is_ok());
    let spliced = [&long[..SALT + BLOCK], &short[SALT..]].concat();
    assert_eq!(opened(key, &spliced), Err(StreamError::Authentication));
}

#[test]
fn cryptor_writes_the_salt_first() {
    let cryptor = Cryptor::with_salt([0u8; 32], [7u8; 24], vec![1, 2]);
    let sink = cryptor.finish().unwrap();
    assert_eq!(&sink[..2], &[1, 2]);
    assert_eq!(&sink[2..26], &[7u8; 24]);
    assert_eq!(sink.len(), 2 + 24 + 16);
}

#[test]
fn cryptor_new_draws_a_salt() {
    let mut cryptor = Cryptor::new([0u8; 32], Vec::new()).unwrap();
    assert_eq!(cryptor.take_output().len(), 24);
    let mut other = Cryptor::new([0u8; 32], Vec::new()).unwrap();
    assert_eq!(other.take_output().len(), 24);
}

#[test]
fn writing_in_pieces_gives_the_same_stream() {
    let key = [4u8; 32];
    let salt = [5u8; 24];
    let plain = sample(3 * CAP + 999);
    let whole = sealed(key, salt, &plain);
    for piece in [1usize, 7, 1000, CAP - 1, CAP, CAP + 1, 2 * CAP + 3] {
        let mut cryptor = Cryptor::with_salt(key, salt, Vec::new());
        for part in plain.chunks(piece) {
            assert_eq!(cryptor.write(part), Ok(part.len()));
        }
        assert_eq!(cryptor.finish().unwrap(), whole, "pieces of {piece}");
    }
}

#[test]
fn write_seals_a_block_as_soon_as_it_is_full() {
    let mut cryptor = Cryptor::with_salt([0u8; 32], [0u8; 24], Vec::new());
    assert_eq!(cryptor.take_output().len(), 24);
    assert_eq!(cryptor.write(&sample(CAP - 1)), Ok(CAP - 1));
    assert_eq!(cryptor.take_output().len(), 0);
    assert_eq!(cryptor.write(&[0u8]), Ok(1));
    assert_eq!(cryptor.take_output().len(), BLOCK);
    assert_eq!(cryptor.write(&sample(3 * CAP + 1)), Ok(3 * CAP + 1));
    assert_eq!(cryptor.take_output().len(), 3 * BLOCK);
    assert_eq!(cryptor.write(&[]), Ok(0));
    assert_eq!(cryptor.take_output().len(), 0);
    assert_eq!(cryptor.finish().unwrap().len(), 1 + TAG);
}

#[test]
fn flush_seals_nothing() {
    let mut cryptor = Cryptor::with_salt([0u8; 32], [0u8; 24], Vec::new());
    cryptor.write(&sample(100)).unwrap();
    assert_eq!(cryptor.flush(), Ok(()));
    assert_eq!(cryptor.take_output().len(), 24);
    assert_eq!(cryptor.flush(), Ok(()));
    assert_eq!(cryptor.finish().unwrap().len(), 100 + TAG);
}

#[test]
fn drained_pieces_make_up_the_stream() {
    let key = [4u8; 32];
    let salt = [5u8; 24];
    let plain = sample(2 * CAP + 10);
    let mut cryptor = Cryptor::with_salt(key, salt, Vec::new());
    let mut wire = Vec::new();
    for part in plain.chunks(3000) {
        cryptor.write(part).unwrap();
        wire.extend(cryptor.take_output());
    }
    wire.extend(cryptor.finish().unwrap());
    assert_eq!(wire, sealed(key, salt, &plain));
}

#[test]
fn read_serves_at_most_one_block() {
    let key = [4u8; 32];
    let plain = sample(2 * CAP + 10);
    let wire = sealed(key, [5u8; 24], &plain);
    let mut decryptor = Decryptor::new(key, wire).unwrap();
    assert_eq!(decryptor.buffered(), 0);
    assert_eq!(decryptor.queued(), 2 * BLOCK + 10 + TAG);
    assert!(!decryptor.is_finished());

    let mut big = vec![0u8; 3 * CAP];
    assert_eq!(decryptor.read(&mut big), Ok(CAP));
    assert_eq!(&big[..CAP], &plain[..CAP]);
    assert!(big[CAP..].iter().all(|&b| b == 0));
    assert_eq!(decryptor.queued(), BLOCK + 10 + TAG);

    let mut small = [0u8; 100];
    assert_eq!(decryptor.read(&mut small), Ok(100));
    assert_eq!(&small[..], &plain[CAP..CAP + 100]);
    assert_eq!(decryptor.buffered(), CAP - 100);
    assert_eq!(decryptor.queued(), 10 + TAG);

    assert_eq!(decryptor.read(&mut big), Ok(CAP - 100));
    assert_eq!(&big[..CAP - 100], &plain[CAP + 100..2 * CAP]);
    assert!(!decryptor.is_finished());

    assert_eq!(decryptor.read(&mut big), Ok(10));
    assert_eq!(&big[..10], &plain[2 * CAP..]);
    assert!(decryptor.is_finished());
    assert_eq!(decryptor.queued(), 0);

    assert_eq!(decryptor.read(&mut big), Ok(0));
    assert_eq!(decryptor.read(&mut big), Ok(0));
}

#[test]
fn read_into_nothing_reads_nothing() {
    let wire = sealed([0u8; 32], [0u8; 24], b"abc");
    let mut decryptor = Decryptor::new([0u8; 32], wire).unwrap();
    assert_eq!(decryptor.read(&mut []), Ok(0));
    assert!(!decryptor.is_finished());
    assert_eq!(decryptor.queued(), 3 + TAG);
    let mut buf = [0u8; 8];
    assert_eq!(decryptor.read(&mut buf), Ok(3));
    assert_eq!(&buf[..3], b"abc");
}

#[test]
fn failure_is_final() {
    let mut wire = sealed([0u8; 32], [0u8; 24], &sample(CAP + 3));
    wire[SALT + BLOCK + 1] ^= 0x40;
    let mut decryptor = Decryptor::new([0u8; 32], wire).unwrap();
    let mut buf = vec![0u8; BLOCK];
    assert_eq!(decryptor.read(&mut buf), Ok(CAP));
    assert_eq!(decryptor.read(&mut buf), Err(StreamError::Authentication));
    assert_eq!(decryptor.buffered(), 0);
    assert_eq!(decryptor.read(&mut buf), Err(StreamError::Authentication));
    assert!(!decryptor.is_finished());
}

#[test]
fn fed_source_reads_like_a_whole_one() {
    let key = [4u8; 32];
    let plain = sample(CAP + 10);
    let wire = sealed(key, [5u8; 24], &plain);
    let mut decryptor = Decryptor::new(key, wire[..SALT].to_vec()).unwrap();
    assert_eq!(decryptor.queued(), 0);
    decryptor.feed(&wire[SALT..SALT + 5000]);
    decryptor.feed(&wire[SALT + 5000..SALT + BLOCK]);
    assert_eq!(decryptor.queued(), BLOCK);
    let mut buf = vec![0u8; BLOCK];
    assert_eq!(decryptor.read(&mut buf), Ok(CAP));
    assert_eq!(&buf[..CAP], &plain[..CAP]);
    decryptor.feed(&wire[SALT + BLOCK..]);
    assert_eq!(decryptor.queued(), 10 + TAG);
    assert_eq!(decryptor.read(&mut buf), Ok(10));
    assert_eq!(&buf[..10], &plain[CAP..]);
    assert!(decryptor.is_finished());
}

#[test]
fn compression_alone_round_trips() {
    for len in [0usize, 1, 1000, 100_000] {
        let plain: Vec<u8> = (0..len).map(|i| (i % 7) as u8).collect();
        let mut packed = vec![0xffu8];
        pack(&plain, &mut packed).unwrap();
        assert_eq!(packed[0], 0xff);
        assert_ne!(&packed[1..], plain.as_slice());
        if len >= 1000 {
            assert!(packed.len() < plain.len());
        }
        let mut back = vec![0xeeu8];
        unpack(&packed[1..], &mut back).unwrap();
        assert_eq!(back[0], 0xee);
        assert_eq!(&back[1..], plain.as_slice());
    }
}

#[test]
fn unpack_refuses_what_is_not_compressed() {
    let mut sink = vec![1u8];
    assert_eq!(unpack(b"not a frame", &mut sink), Err(StreamError::Compression));
    assert_eq!(sink, vec![1u8]);
}

#[test]
fn empty_stream_has_a_known_tag() {
    let wire = sealed([0u8; 32], [0u8; 24], &[]);
    let tag: [u8; 16] = [
        185, 183, 154, 155, 25, 70, 120, 179, 138, 109, 190, 196, 15, 251, 156, 201,
    ];
    assert_eq!(&wire[..24], &[0u8; 24]);
    assert_eq!(&wire[24..], &tag);

    let wire = sealed([0u8; 32], [0u8; 24], b"abc");
    let block: [u8; 19] = [
        39, 102, 124, 105, 147, 214, 224, 200, 169, 223, 131, 151, 94, 38, 50, 129, 240, 22, 44,
    ];
    assert_eq!(&wire[24..], &block);
}

#[test]
fn two_block_stream_has_known_bytes() {
    let mut master = [0u8; 32];
    for (i, byte) in master.iter_mut().enumerate() {
        *byte = i as u8;
    }
    let mut salt = [0u8; 24];
    for (i, byte) in salt.iter_mut().enumerate() {
        *byte = 100 + i as u8;
    }
    let wire = sealed(master, salt, &sample(CAP + 5));
    assert_eq!(wire.len(), 8237);
    assert_eq!(&wire[..24], &salt);
    assert_eq!(&wire[24..32], &[243, 162, 32, 4, 58, 120, 163, 158]);
    assert_eq!(
        &wire[24 + BLOCK - 16..24 + BLOCK],
        &[97, 202, 194, 33, 16, 232, 166, 122, 181, 159, 174, 140, 66, 169, 113, 93]
    );
    assert_eq!(
        &wire[24 + BLOCK..],
        &[
            101, 51, 188, 111, 115, 201, 158, 15, 255, 8, 179, 57, 145, 63, 187, 24, 41, 115, 223,
            229, 105
        ]
    );
    assert_eq!(opened(master, &wire), Ok(sample(CAP + 5)));
}

#[test]
fn framing_round_trips_the_long_pattern() {
    let input = (u8::MIN..=u8::MAX)
        .flat_map(|_| (u8::MIN..u8::MAX))
        .collect::<Vec<_>>();
    assert_eq!(input.len(), 65_280);

    let mut transient = Vec::new();
    encode([0; 32], input.as_slice(), &mut transient).unwrap();
    assert_ne!(input, transient);
    assert_eq!(transient.len(), 24 + 7 * BLOCK + (65_280 - 7 * CAP) + 16);

    let mut output = Vec::new();
    decode([0; 32], transient.as_slice(), &mut output).unwrap();
    assert_eq!(input, output);
}

#[test]
fn wanted_counts_what_a_block_still_lacks() {
    let key = [4u8; 32];
    let plain = sample(CAP + 10);
    let wire = sealed(key, [5u8; 24], &plain);
    let mut decryptor = Decryptor::new(key, wire[..SALT].to_vec()).unwrap();
    assert_eq!(decryptor.wanted(), BLOCK);
    decryptor.feed(&wire[SALT..SALT + 1]);
    assert_eq!(decryptor.wanted(), BLOCK - 1);
    decryptor.feed(&wire[SALT + 1..SALT + BLOCK]);
    assert_eq!(decryptor.wanted(), 0);

    let mut buf = vec![0u8; 100];
    assert_eq!(decryptor.read(&mut buf), Ok(100));
    // Plaintext is pending: nothing is wanted until it is read out.
    assert_eq!(decryptor.wanted(), 0);
    let mut buf = vec![0u8; BLOCK];
    assert_eq!(decryptor.read(&mut buf), Ok(CAP - 100));
    assert_eq!(decryptor.wanted(), BLOCK);

    decryptor.feed(&wire[SALT + BLOCK..]);
    assert_eq!(decryptor.wanted(), BLOCK - 10 - TAG);
    assert_eq!(decryptor.read(&mut buf), Ok(10));
    assert!(decryptor.is_finished());
    assert_eq!(decryptor.wanted(), 0);
}

#[test]
fn nothing_is_wanted_after_a_failure() {
    let mut decryptor = Decryptor::new([0u8; 32], vec![0u8; 24 + 5]).unwrap();
    assert_eq!(decryptor.wanted(), BLOCK - 5);
    let mut buf = [0u8; 16];
    assert_eq!(decryptor.read(&mut buf), Err(StreamError::Authentication));
    assert_eq!(decryptor.wanted(), 0);
}

#[test]
fn compression_is_determined_by_its_input() {
    let plain = sample(50_000);
    let mut first = Vec::new();
    let mut again = Vec::new();
    pack(&plain, &mut first).unwrap();
    pack(&plain, &mut again).unwrap();
    assert_eq!(first, again);
    assert!(!first.is_empty());
    // The frame begins with the Zstandard magic number.
    assert_eq!(&first[..4], &[0x28, 0xb5, 0x2f, 0xfd]);
}

#[test]
fn pack_succeeds_on_every_kind_of_input() {
    for plain in [Vec::new(), vec![0u8; 1], sample(3), vec![0xffu8; 100_000], sample(200_000)] {
        let mut packed = Vec::new();
        assert_eq!(pack(&plain, &mut packed), Ok(()));
        let mut back = Vec::new();
        assert_eq!(unpack(&packed, &mut back), Ok(()));
        assert_eq!(back, plain);
    }
}
