//! Sound samples as raw bytes.
use vstd::prelude::*;

verus! {

/// The number that four bytes make, the lowest first.
pub open spec fn word_from_low(bytes: Seq<u8>) -> int {
    bytes[0] + 256 * bytes[1] + 65536 * bytes[2] + 16777216 * bytes[3]
}

/// The number that four bytes make, the highest first.
pub open spec fn word_from_high(bytes: Seq<u8>) -> int {
    16777216 * bytes[0] + 65536 * bytes[1] + 256 * bytes[2] + bytes[3]
}

/// Whether some words are the groups of four of some bytes, all of them with the lowest byte first
/// or all of them with the highest byte first.
pub open spec fn are_words(words: Seq<u32>, bytes: Seq<u8>) -> bool {
    &&& bytes.len() == 4 * words.len()
    &&& {
        ||| forall|i: int|
            0 <= i < words.len() ==> #[trigger] words[i] == word_from_low(
                bytes.subrange(4 * i, 4 * i + 4),
            )
        ||| forall|i: int|
            0 <= i < words.len() ==> #[trigger] words[i] == word_from_high(
                bytes.subrange(4 * i, 4 * i + 4),
            )
    }
}

/// Reads bytes as words of the machine; a word holds the bits of one 32 bit sample.
///
/// Trusted: `bytemuck::try_cast_slice`, from `u8` to `u32`. Where it succeeds, the words are the
/// groups of four bytes in the byte order of the machine. It fails where bytes would be left over.
/// It also fails where the bytes do not lie at an address that words can have; so success is not
/// promised.
#[verifier::external_body]
pub(crate) fn words_of(bytes: &[u8]) -> (words: Option<Vec<u32>>)
    ensures
        words is Some ==> are_words(words.unwrap()@, bytes@),
        bytes@.len() % 4 != 0 ==> words is None,
{
    match bytemuck::try_cast_slice::<u8, u32>(bytes) {
        Ok(words) => Some(words.to_vec()),
        Err(_) => None,
    }
}

/// The number of bytes of some frames of 32 bit samples.
pub open spec fn frame_bytes(samples: int, channels: int) -> int {
    4 * samples * channels
}

/// Computes the number of bytes of some frames of 32 bit samples.
pub fn frame_byte_len(samples: usize, channels: u32) -> (len: usize)
    requires
        frame_bytes(samples as int, channels as int) <= usize::MAX,
        4 * samples <= usize::MAX,
        channels <= usize::MAX,
    ensures
        len == frame_bytes(samples as int, channels as int),
{
    4 * samples * channels as usize
}

/// Whether the sound of a frame can be taken out of its bytes.
pub open spec fn has_frame(bytes: Seq<u8>, samples: usize, channels: u32) -> bool {
    &&& 4 * samples <= usize::MAX
    &&& channels <= usize::MAX
    &&& frame_bytes(samples as int, channels as int) <= bytes.len()
}

/// Takes the 32 bit samples of a frame out of its bytes, which may hold more than the samples.
pub fn frame_words(bytes: &[u8], samples: usize, channels: u32) -> (words: Option<Vec<u32>>)
    requires
        has_frame(bytes@, samples, channels),
    ensures
        words is Some ==> are_words(
            words.unwrap()@,
            bytes@.take(frame_bytes(samples as int, channels as int)),
        ),
{
    let total: usize = bytes.len();
    assert(total == bytes@.len());
    let len = frame_byte_len(samples, channels);
    proof {
        assert(0 <= frame_bytes(samples as int, channels as int)) by (nonlinear_arith)
            requires
                0 <= samples,
                0 <= channels,
        ;
    }
    let used = vstd::slice::slice_subrange(bytes, 0, len);
    assert(used@ =~= bytes@.take(len as int));
    words_of(used)
}

/// Each word of four bytes gives its bytes back: from the lowest to the highest in their order, or
/// in all words the other way round. No byte is left out.
pub proof fn law_words_give_bytes_back(words: Seq<u32>, bytes: Seq<u8>)
    requires
        are_words(words, bytes),
    ensures
        bytes.len() == 4 * words.len(),
        (forall|i: int|
            0 <= i < words.len() ==> (#[trigger] words[i]) as int % 256 == bytes[4 * i] && words[i] as int
                / 256 % 256 == bytes[4 * i + 1] && words[i] as int / 65536 % 256 == bytes[4 * i + 2]
                && words[i] as int / 16777216 == bytes[4 * i + 3]) || (forall|i: int|
            0 <= i < words.len() ==> (#[trigger] words[i]) as int % 256 == bytes[4 * i + 3]
                && words[i] as int / 256 % 256 == bytes[4 * i + 2] && words[i] as int / 65536 % 256
                == bytes[4 * i + 1] && words[i] as int / 16777216 == bytes[4 * i]),
{
    if forall|i: int|
        0 <= i < words.len() ==> #[trigger] words[i] == word_from_low(
            bytes.subrange(4 * i, 4 * i + 4),
        ) {
        assert forall|i: int| 0 <= i < words.len() implies (#[trigger] words[i]) as int % 256 == bytes[4
            * i] && words[i] as int / 256 % 256 == bytes[4 * i + 1] && words[i] as int / 65536 % 256
            == bytes[4 * i + 2] && words[i] as int / 16777216 == bytes[4 * i + 3] by {
            let four = bytes.subrange(4 * i, 4 * i + 4);
            lemma_digits(words[i] as int, four[0], four[1], four[2], four[3]);
        }
    } else {
        assert forall|i: int| 0 <= i < words.len() implies (#[trigger] words[i]) as int % 256 == bytes[4
            * i + 3] && words[i] as int / 256 % 256 == bytes[4 * i + 2] && words[i] as int / 65536
            % 256 == bytes[4 * i + 1] && words[i] as int / 16777216 == bytes[4 * i] by {
            let four = bytes.subrange(4 * i, 4 * i + 4);
            assert(words[i] == word_from_high(four));
            lemma_digits(words[i] as int, four[3], four[2], four[1], four[0]);
        }
    }
}

proof fn lemma_digits(word: int, a: u8, b: u8, c: u8, d: u8)
    requires
        word == a + 256 * b + 65536 * c + 16777216 * d,
    ensures
        word % 256 == a,
        word / 256 % 256 == b,
        word / 65536 % 256 == c,
        word / 16777216 == d,
{
    assert(word / 256 == b + 256 * c + 65536 * d);
    assert(word / 65536 == c + 256 * d);
}

/// A frame has four bytes for each sample of each channel.
pub proof fn law_frame_bytes(samples: int, channels: int)
    ensures
        frame_bytes(0, channels) == 0,
        frame_bytes(samples, 0) == 0,
        frame_bytes(samples + 1, channels) == frame_bytes(samples, channels) + 4 * channels,
        frame_bytes(samples, channels + 1) == frame_bytes(samples, channels) + 4 * samples,
{
    assert(4 * (samples + 1) * channels == 4 * samples * channels + 4 * channels) by (nonlinear_arith);
    assert(4 * samples * (channels + 1) == 4 * samples * channels + 4 * samples) by (nonlinear_arith);
    assert(4 * 0 * channels == 0 && 4 * samples * 0 == 0) by (nonlinear_arith);
}

/// The sound of a frame can be taken out of bytes that are as many as its samples have, or more.
pub proof fn law_frames_are_taken(bytes: Seq<u8>, samples: usize, channels: u32)
    requires
        channels > 0,
        channels <= usize::MAX,
        bytes.len() <= usize::MAX,
    ensures
        bytes.len() >= frame_bytes(samples as int, channels as int) ==> has_frame(
            bytes,
            samples,
            channels,
        ),
        has_frame(bytes, samples, channels) ==> bytes.len() >= frame_bytes(
            samples as int,
            channels as int,
        ),
{
    assert(4 * samples <= frame_bytes(samples as int, channels as int)) by (nonlinear_arith)
        requires
            samples >= 0,
            channels >= 1,
    ;
}

} // verus!
