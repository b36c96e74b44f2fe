//! The rules of transcription: how audio is cut, when a token sequence ends, how chunks join.
use vstd::prelude::*;

#[allow(unused_imports)]
use crate::whisper_burn::beam::{
    answers_of, beam_search, beams_of, continues, finds, law_finds_continuation, lemma_finds_more, Beam,
    BeamNode, Continuations,
};

verus! {

/// A log probability as the search compares it.
///
/// `rank` stands for the probability itself and `margin_rank` for the probability plus 5, the lead
/// that lets the search stop early. Both are ranks as `rank_of_bits` gives them.
#[derive(Debug, Clone, Copy, PartialEq, Eq, Structural)]
pub struct LogProb {
    pub rank: i64,
    pub margin_rank: i64,
}

/// The rank of the number 5.
pub const FIVE_RANK: i64 = 0x4014_0000_0000_0000;

/// The log probability of what is certain: zero.
pub open spec fn certain() -> LogProb {
    LogProb { rank: 0, margin_rank: FIVE_RANK }
}

/// The rank of a double precision number among all of them, given its bits: numbers that are not
/// NaN compare as their ranks do.
pub open spec fn bits_rank(bits: u64) -> int {
    if bits < 0x8000_0000_0000_0000 {
        bits as int
    } else {
        0x8000_0000_0000_0000 - bits
    }
}

/// Computes the rank of a double precision number from its bits.
pub fn rank_of_bits(bits: u64) -> (rank: i64)
    ensures
        rank == bits_rank(bits),
{
    if bits < 0x8000_0000_0000_0000 {
        bits as i64
    } else {
        -((bits - 0x8000_0000_0000_0000) as i64)
    }
}

/// One token of a candidate transcription.
#[derive(Debug, Clone, Copy, PartialEq, Eq, Structural)]
pub struct BeamSearchToken {
    pub token: usize,
    pub _log_prob: LogProb,
}

/// The longest token sequence that the search lets grow.
pub const MAX_TOKENS: usize = 25;

/// The number of text tokens; the special tokens come after them.
pub const TEXT_TOKENS: usize = 50257;

/// Whether the three tokens at `at` are the last three of the sequence.
pub open spec fn repeats_tail_at(toks: Seq<BeamSearchToken>, at: int) -> bool {
    let tail = toks.len() - 3;
    &&& toks[at].token == toks[tail].token
    &&& toks[at + 1].token == toks[tail + 1].token
    &&& toks[at + 2].token == toks[tail + 2].token
}

/// Whether the last three tokens have occurred before, apart from the last three themselves.
pub open spec fn repeats_tail(toks: Seq<BeamSearchToken>) -> bool {
    exists|at: int| 0 <= at <= toks.len() - 6 && #[trigger] repeats_tail_at(toks, at)
}

/// Whether a token sequence is complete.
pub open spec fn finished(toks: Seq<BeamSearchToken>, end_token: usize) -> bool {
    &&& toks.len() > 0
    &&& {
        let last = toks.last().token;
        ||| last == end_token
        ||| toks.len() >= MAX_TOKENS
        ||| toks.len() > 6 && repeats_tail(toks)
        ||| {
            &&& toks.len() >= 3
            &&& toks[toks.len() - 2].token == last
            &&& toks[toks.len() - 3].token == last
            &&& last < TEXT_TOKENS
        }
    }
}

/// Decides whether a token sequence is complete: it ends in the end token, it is as long as it
/// may grow, its last three tokens have occurred before, or one text token occurs thrice in a row.
pub fn beamsearch_is_finished(toks: &[BeamSearchToken], end_token: usize) -> (done: bool)
    ensures
        done == finished(toks@, end_token),
{
    let n: usize = toks.len();
    if n == 0 {
        return false;
    }
    let last = toks[n - 1].token;
    if last == end_token || n >= MAX_TOKENS {
        return true;
    }
    if n > 6 {
        let mut at: usize = 0;
        while at <= n - 6
            invariant
                6 < n == toks@.len(),
                at <= n - 5,
                forall|k: int| 0 <= k < at ==> !#[trigger] repeats_tail_at(toks@, k),
            decreases n - at,
        {
            if toks[at].token == toks[n - 3].token && toks[at + 1].token == toks[n - 2].token
                && toks[at + 2].token == toks[n - 1].token {
                assert(repeats_tail_at(toks@, at as int));
                return true;
            }
            at = at + 1;
        }
    }
    n >= 3 && toks[n - 2].token == last && toks[n - 3].token == last && last < TEXT_TOKENS
}

/// How many positions of both sequences are compared when the current tokens are laid over the
/// last `offset + 1` previous ones.
pub open spec fn overlap_span(prev: Seq<usize>, curr: Seq<usize>, offset: int) -> int {
    if offset + 1 < curr.len() {
        offset + 1
    } else {
        curr.len() as int
    }
}

/// Where the current tokens begin in the previous ones at an offset.
pub open spec fn overlap_start(prev: Seq<usize>, offset: int) -> int {
    prev.len() - 1 - offset
}

/// Whether both sequences hold the same token at place `at` of the overlap.
pub open spec fn agrees_at(prev: Seq<usize>, curr: Seq<usize>, offset: int, at: int) -> bool {
    prev[overlap_start(prev, offset) + at] == curr[at]
}

/// In how many of the first `upto` places the sequences agree.
pub open spec fn agreements(prev: Seq<usize>, curr: Seq<usize>, offset: int, upto: int) -> nat
    decreases upto,
{
    if upto <= 0 {
        0
    } else {
        agreements(prev, curr, offset, upto - 1) + (if agrees_at(prev, curr, offset, upto - 1) {
            1nat
        } else {
            0nat
        })
    }
}

/// In how many places the sequences agree at an offset.
pub open spec fn overlap_count(prev: Seq<usize>, curr: Seq<usize>, offset: int) -> nat {
    agreements(prev, curr, offset, overlap_span(prev, curr, offset))
}

/// How many offsets are tried.
pub open spec fn offsets_tried(prev: Seq<usize>, curr: Seq<usize>, max_n_offsets: usize) -> int {
    let shorter = if prev.len() < curr.len() {
        prev.len() as int
    } else {
        curr.len() as int
    };
    if shorter < max_n_offsets {
        shorter
    } else {
        max_n_offsets as int
    }
}

/// Whether `offset` is the first one, of those below `n`, at which the most places agree.
pub open spec fn best_offset(prev: Seq<usize>, curr: Seq<usize>, n: int, offset: int) -> bool {
    &&& 0 <= offset < n
    &&& overlap_count(prev, curr, offset) > 0
    &&& forall|o: int|
        #![trigger overlap_count(prev, curr, o)]
        0 <= o < n ==> overlap_count(prev, curr, o) <= overlap_count(prev, curr, offset) && (o
            < offset ==> overlap_count(prev, curr, o) < overlap_count(prev, curr, offset))
}

/// Whether `at` is the first place of the overlap at which the sequences agree.
pub open spec fn first_agreement(prev: Seq<usize>, curr: Seq<usize>, offset: int, at: int) -> bool {
    &&& 0 <= at < overlap_span(prev, curr, offset)
    &&& agrees_at(prev, curr, offset, at)
    &&& forall|k: int| 0 <= k < at ==> !#[trigger] agrees_at(prev, curr, offset, k)
}

/// Whether nothing agrees at any of the first `n` offsets.
pub open spec fn no_overlap(prev: Seq<usize>, curr: Seq<usize>, n: int) -> bool {
    forall|o: int| 0 <= o < n ==> #[trigger] overlap_count(prev, curr, o) == 0
}

/// Whether two indices are where the previous and the current tokens are to be joined.
pub open spec fn joins(
    prev: Seq<usize>,
    curr: Seq<usize>,
    n: int,
    min_n_overlaps: usize,
    prev_index: int,
    curr_index: int,
) -> bool {
    ||| no_overlap(prev, curr, n) && min_n_overlaps == 0 && prev_index == 0 && curr_index == 0
    ||| exists|offset: int|
        #![trigger best_offset(prev, curr, n, offset)]
        {
            &&& best_offset(prev, curr, n, offset)
            &&& overlap_count(prev, curr, offset) >= min_n_overlaps
            &&& first_agreement(prev, curr, offset, curr_index)
            &&& prev_index == overlap_start(prev, offset) + curr_index
        }
}

/// Whether `indices` are where two chunks are to be joined, or nothing because too few tokens
/// agree.
pub open spec fn is_overlap(
    indices: Option<(usize, usize)>,
    prev: Seq<usize>,
    curr: Seq<usize>,
    max_n_offsets: usize,
    min_n_overlaps: usize,
) -> bool {
    let n = offsets_tried(prev, curr, max_n_offsets);
    match indices {
        Some((prev_index, curr_index)) => joins(
            prev,
            curr,
            n,
            min_n_overlaps,
            prev_index as int,
            curr_index as int,
        ),
        None => min_n_overlaps > 0 && forall|o: int|
            0 <= o < n ==> #[trigger] overlap_count(prev, curr, o) < min_n_overlaps,
    }
}

/// Counts the agreeing places at one offset, and finds the first of them.
fn count_overlap(prev: &[usize], curr: &[usize], offset: usize) -> (found: (usize, usize))
    requires
        offset < prev@.len(),
        offset < curr@.len(),
    ensures
        found.0 == overlap_count(prev@, curr@, offset as int),
        found.0 > 0 ==> first_agreement(prev@, curr@, offset as int, found.1 as int),
{
    let prev_len: usize = prev.len();
    let start: usize = prev_len - 1 - offset;
    let span: usize = offset + 1;
    let mut count: usize = 0;
    let mut first: usize = 0;
    let mut at: usize = 0;
    assert(overlap_span(prev@, curr@, offset as int) == span);
    while at < span
        invariant
            offset < prev_len == prev@.len(),
            offset < curr@.len(),
            start == overlap_start(prev@, offset as int),
            span == offset + 1,
            span == overlap_span(prev@, curr@, offset as int),
            at <= span,
            count <= at,
            count == agreements(prev@, curr@, offset as int, at as int),
            count > 0 ==> first < at && first_agreement(
                prev@,
                curr@,
                offset as int,
                first as int,
            ),
            count == 0 ==> forall|k: int|
                0 <= k < at ==> !#[trigger] agrees_at(prev@, curr@, offset as int, k),
        decreases span - at,
    {
        if prev[start + at] == curr[at] {
            assert(agrees_at(prev@, curr@, offset as int, at as int));
            if count == 0 {
                first = at;
            }
            count = count + 1;
        } else {
            assert(!agrees_at(prev@, curr@, offset as int, at as int));
        }
        at = at + 1;
    }
    (count, first)
}

/// Finds where the current tokens continue the previous ones.
///
/// The current tokens are laid over the last one, two, three and so on of the previous tokens;
/// the first overlap in which the most tokens agree is taken, if enough of them do. The indices
/// are those of the first agreeing token, in the previous and in the current tokens.
pub fn _find_chunk_overlap(
    prev_tokens: &[usize],
    curr_tokens: &[usize],
    max_n_offsets: usize,
    min_n_overlaps: usize,
) -> (indices: Option<(usize, usize)>)
    ensures
        is_overlap(indices, prev_tokens@, curr_tokens@, max_n_offsets, min_n_overlaps),
{
    let mut n_offsets: usize = prev_tokens.len();
    if curr_tokens.len() < n_offsets {
        n_offsets = curr_tokens.len();
    }
    if max_n_offsets < n_offsets {
        n_offsets = max_n_offsets;
    }
    let mut max_overlap: usize = 0;
    let mut max_overlap_indices: (usize, usize) = (0, 0);
    let ghost mut best: int = 0;
    let mut offset: usize = 0;
    while offset < n_offsets
        invariant
            offset <= n_offsets,
            n_offsets <= prev_tokens@.len(),
            n_offsets <= curr_tokens@.len(),
            max_overlap == 0 ==> no_overlap(prev_tokens@, curr_tokens@, offset as int)
                && max_overlap_indices == (0usize, 0usize),
            max_overlap > 0 ==> {
                &&& best_offset(prev_tokens@, curr_tokens@, offset as int, best)
                &&& max_overlap == overlap_count(prev_tokens@, curr_tokens@, best)
                &&& first_agreement(
                    prev_tokens@,
                    curr_tokens@,
                    best,
                    max_overlap_indices.1 as int,
                )
                &&& max_overlap_indices.0 == overlap_start(prev_tokens@, best)
                    + max_overlap_indices.1
            },
        decreases n_offsets - offset,
    {
        let (n_overlap, first) = count_overlap(prev_tokens, curr_tokens, offset);
        if n_overlap > max_overlap {
            max_overlap = n_overlap;
            max_overlap_indices = (prev_tokens.len() - 1 - offset + first, first);
            proof {
                best = offset as int;
            }
        }
        offset = offset + 1;
    }
    if max_overlap >= min_n_overlaps {
        Some(max_overlap_indices)
    } else {
        None
    }
}

/// The part of the encoder's context that is left empty after the audio, which helps the model find
/// the end of the text.
pub const PADDING: usize = 200;

/// How many beams go on after each step of the search.
pub const BEAM_SIZE: usize = 1;

/// How many tokens the search adds at most.
pub const MAX_DEPTH: usize = 12;

/// How far one window of audio lies behind the one before it.
pub open spec fn window_shift(sample_rate: usize, window_len: usize) -> int {
    if window_len > sample_rate {
        window_len - sample_rate
    } else {
        1
    }
}

/// Into how many windows some samples are cut; there is always one.
pub open spec fn window_count(n_samples: usize, sample_rate: usize, window_len: usize) -> int {
    if n_samples == 0 {
        1
    } else {
        (n_samples - 1) / window_shift(sample_rate, window_len) + 1
    }
}

/// The samples of window `i`: the first one, and the one after the last.
pub open spec fn window_at(
    n_samples: usize,
    sample_rate: usize,
    window_len: usize,
    i: int,
) -> (int, int) {
    let start = i * window_shift(sample_rate, window_len);
    (
        start,
        if start + window_len < n_samples {
            start + window_len
        } else {
            n_samples as int
        },
    )
}

proof fn lemma_window_start(n_samples: usize, sample_rate: usize, window_len: usize, i: int)
    requires
        0 <= i < window_count(n_samples, sample_rate, window_len),
    ensures
        0 <= i * window_shift(sample_rate, window_len) <= n_samples,
        n_samples > 0 ==> i * window_shift(sample_rate, window_len) < n_samples,
{
    let shift = window_shift(sample_rate, window_len);
    if n_samples > 0 {
        let whole = (n_samples - 1) / shift;
        vstd::arithmetic::div_mod::lemma_fundamental_div_mod(n_samples - 1, shift);
        assert(0 <= i * shift <= n_samples - 1) by (nonlinear_arith)
            requires
                0 <= i <= whole,
                shift > 0,
                n_samples - 1 == shift * whole + (n_samples - 1) % shift,
                0 <= (n_samples - 1) % shift,
        ;
    } else {
        assert(i * shift == 0) by (nonlinear_arith)
            requires
                i == 0,
        ;
    }
}

/// Each sample lies in a window, where windows are not empty.
pub proof fn law_windows_cover(
    n_samples: usize,
    sample_rate: usize,
    window_len: usize,
    sample: int,
)
    requires
        window_len > 0,
        0 <= sample < n_samples,
    ensures
        exists|i: int|
            0 <= i < window_count(n_samples, sample_rate, window_len) && (#[trigger] window_at(
                n_samples,
                sample_rate,
                window_len,
                i,
            )).0 <= sample < window_at(n_samples, sample_rate, window_len, i).1,
{
    let shift = window_shift(sample_rate, window_len);
    let i = sample / shift;
    vstd::arithmetic::div_mod::lemma_fundamental_div_mod(sample, shift);
    vstd::arithmetic::div_mod::lemma_div_is_ordered(sample, n_samples - 1, shift);
    vstd::arithmetic::div_mod::lemma_div_pos_is_pos(sample, shift);
    assert(i * shift <= sample < i * shift + shift) by (nonlinear_arith)
        requires
            sample == shift * i + sample % shift,
            0 <= sample % shift < shift,
    ;
    let window = window_at(n_samples, sample_rate, window_len, i);
    assert(window.0 <= sample < window.1);
}

/// A window that is longer than one second of audio shares exactly that second with the next one,
/// unless the audio ends before.
pub proof fn law_windows_overlap(n_samples: usize, sample_rate: usize, window_len: usize, i: int)
    requires
        window_len > sample_rate,
        0 <= i,
        i + 1 < window_count(n_samples, sample_rate, window_len),
        window_at(n_samples, sample_rate, window_len, i).0 + window_len <= n_samples,
    ensures
        window_at(n_samples, sample_rate, window_len, i).1 - window_at(
            n_samples,
            sample_rate,
            window_len,
            i + 1,
        ).0 == sample_rate,
{
    let shift = window_shift(sample_rate, window_len);
    assert((i + 1) * shift == i * shift + shift) by (nonlinear_arith);
}

/// Cuts some samples into windows, which overlap by one second where they are long enough.
pub fn waveform_windows(n_samples: usize, sample_rate: usize, window_len: usize) -> (windows: Vec<
    (usize, usize),
>)
    ensures
        windows@.len() == window_count(n_samples, sample_rate, window_len),
        forall|i: int|
            #![trigger windows@[i]]
            0 <= i < windows@.len() ==> (windows@[i].0 as int, windows@[i].1 as int) == window_at(
                n_samples,
                sample_rate,
                window_len,
                i,
            ) && windows@[i].0 <= windows@[i].1 <= n_samples,
{
    let shift: usize = if window_len > sample_rate {
        window_len - sample_rate
    } else {
        1
    };
    let last: usize = (if n_samples > 0 {
        n_samples - 1
    } else {
        0
    }) / shift;
    let mut windows: Vec<(usize, usize)> = Vec::new();
    let mut i: usize = 0;
    let mut more = true;
    while more
        invariant
            shift == window_shift(sample_rate, window_len),
            last + 1 == window_count(n_samples, sample_rate, window_len),
            i <= last,
            windows@.len() == if more {
                i as int
            } else {
                i + 1
            },
            !more ==> i == last,
            forall|k: int|
                #![trigger windows@[k]]
                0 <= k < windows@.len() ==> (windows@[k].0 as int, windows@[k].1 as int)
                    == window_at(n_samples, sample_rate, window_len, k) && windows@[k].0
                    <= windows@[k].1 <= n_samples,
        decreases last - i + (if more {
            1int
        } else {
            0
        }),
    {
        proof {
            lemma_window_start(n_samples, sample_rate, window_len, i as int);
        }
        let start: usize = i * shift;
        let end: usize = if n_samples - start > window_len {
            start + window_len
        } else {
            n_samples
        };
        windows.push((start, end));
        if i < last {
            i = i + 1;
        } else {
            more = false;
        }
    }
    windows
}

/// How many frames of a spectrogram the encoder is given.
pub open spec fn frames_kept(n_ctx: int, n_ctx_max_encoder: int, padding: int) -> int {
    if n_ctx + padding <= n_ctx_max_encoder {
        n_ctx
    } else {
        n_ctx_max_encoder - padding
    }
}

/// The encoder is given as many frames as there are and as fit beside the padding: no more of
/// either, and none is left out that would fit.
pub proof fn law_frames_kept(n_ctx: int, n_ctx_max_encoder: int, padding: int)
    ensures
        frames_kept(n_ctx, n_ctx_max_encoder, padding) <= n_ctx,
        frames_kept(n_ctx, n_ctx_max_encoder, padding) + padding <= n_ctx_max_encoder,
        frames_kept(n_ctx, n_ctx_max_encoder, padding) == n_ctx || frames_kept(
            n_ctx,
            n_ctx_max_encoder,
            padding,
        ) + padding == n_ctx_max_encoder,
{
}

/// How many frames of a spectrogram the encoder is given, beside the padding.
pub fn mel_frames_kept(n_ctx: usize, n_ctx_max_encoder: usize, padding: usize) -> (kept: usize)
    requires
        padding <= n_ctx_max_encoder,
    ensures
        kept == frames_kept(n_ctx as int, n_ctx_max_encoder as int, padding as int),
{
    if n_ctx < n_ctx_max_encoder - padding {
        n_ctx
    } else {
        n_ctx_max_encoder - padding
    }
}

/// The tokens of a beam as the decoder takes them, filled up with zeros.
pub open spec fn decoder_row(toks: Seq<BeamSearchToken>, width: int) -> Seq<i32> {
    Seq::new(
        width as nat,
        |j: int|
            if j < toks.len() {
                toks[j].token as i32
            } else {
                0
            },
    )
}

/// The first `n` rows of the decoder's input, one after the other.
pub open spec fn decoder_rows(beams: Seq<Beam>, width: int, n: int) -> Seq<i32>
    decreases n,
{
    if n <= 0 {
        Seq::empty()
    } else {
        decoder_rows(beams, width, n - 1) + decoder_row(beams[n - 1].seq, width)
    }
}

/// Whether `width` is the length of the longest one of some beams.
pub open spec fn is_longest(beams: Seq<Beam>, width: int) -> bool {
    &&& width >= 0
    &&& forall|i: int| 0 <= i < beams.len() ==> (#[trigger] beams[i]).seq.len() <= width
    &&& width > 0 ==> exists|i: int|
        0 <= i < beams.len() && (#[trigger] beams[i]).seq.len() == width
}

/// The decoder's input has a row of equal length for each beam.
pub proof fn law_decoder_rows_len(beams: Seq<Beam>, width: int, n: int)
    requires
        0 <= width,
        0 <= n,
    ensures
        decoder_rows(beams, width, n).len() == n * width,
    decreases n,
{
    if n > 0 {
        law_decoder_rows_len(beams, width, n - 1);
        assert(n * width == (n - 1) * width + width) by (nonlinear_arith);
    } else {
        assert(n * width == 0) by (nonlinear_arith)
            requires
                n == 0,
        ;
    }
}

/// Lays the beams out as the decoder takes them: a row for each, as long as the longest one.
/// Gives back the length of a row, and the rows one after the other.
pub fn flatten_beams(beams: &Vec<BeamNode<BeamSearchToken>>) -> (input: (usize, Vec<i32>))
    ensures
        is_longest(beams_of(beams@), input.0 as int),
        input.1@ == decoder_rows(beams_of(beams@), input.0 as int, beams@.len() as int),
{
    let ghost values = beams_of(beams@);
    let mut max_seq_len: usize = 0;
    let mut i: usize = 0;
    while i < beams.len()
        invariant
            values == beams_of(beams@),
            i <= beams@.len(),
            forall|k: int| 0 <= k < i ==> (#[trigger] values[k]).seq.len() <= max_seq_len,
            max_seq_len > 0 ==> exists|k: int|
                0 <= k < i && (#[trigger] values[k]).seq.len() == max_seq_len,
        decreases beams@.len() - i,
    {
        assert(values[i as int].seq == beams@[i as int].seq@);
        if beams[i].seq.len() > max_seq_len {
            max_seq_len = beams[i].seq.len();
        }
        i = i + 1;
    }
    let mut flattened: Vec<i32> = Vec::new();
    let mut row: usize = 0;
    while row < beams.len()
        invariant
            values == beams_of(beams@),
            row <= beams@.len(),
            is_longest(values, max_seq_len as int),
            flattened@ == decoder_rows(values, max_seq_len as int, row as int),
        decreases beams@.len() - row,
    {
        let ghost before = flattened@;
        let ghost cells = decoder_row(values[row as int].seq, max_seq_len as int);
        let seq = &beams[row].seq;
        let mut j: usize = 0;
        assert(before + cells.take(0) =~= before);
        while j < max_seq_len
            invariant
                j <= max_seq_len,
                cells == decoder_row(seq@, max_seq_len as int),
                flattened@ == before + cells.take(j as int),
            decreases max_seq_len - j,
        {
            let cell: i32 = if j < seq.len() {
                #[verifier::truncate]
                (seq[j].token as i32)
            } else {
                0
            };
            flattened.push(cell);
            assert(cells.take(j + 1) =~= cells.take(j as int).push(cell));
            j = j + 1;
        }
        assert(cells.take(max_seq_len as int) =~= cells);
        row = row + 1;
    }
    (max_seq_len, flattened)
}

/// How many of the last tokens of a beam the model is discouraged from repeating.
pub const LOOKBACK: usize = 10;

/// Whether the token at place `k` of beam `i` is discouraged, and is the one at `at` in the table
/// that has a row of the whole vocabulary for each beam.
pub open spec fn is_discouraged_by(
    beams: Seq<Beam>,
    vocab_size: usize,
    at: int,
    i: int,
    k: int,
) -> bool {
    &&& 0 <= i < beams.len()
    &&& 0 <= k < beams[i].seq.len()
    &&& k >= beams[i].seq.len() - LOOKBACK
    &&& beams[i].seq[k].token < TEXT_TOKENS
    &&& at == i * vocab_size + beams[i].seq[k].token
}

/// Whether the table entry `at` stands for a token that is discouraged.
pub open spec fn is_discouraged(beams: Seq<Beam>, vocab_size: usize, at: int) -> bool {
    exists|i: int, k: int| #[trigger] is_discouraged_by(beams, vocab_size, at, i, k)
}

/// Finds the tokens that the model is discouraged from proposing: the text tokens among the last
/// ones of each beam. The table has a row of the whole vocabulary for each beam.
pub fn penalty_map(beams: &Vec<BeamNode<BeamSearchToken>>, vocab_size: usize) -> (map: Vec<bool>)
    requires
        beams@.len() * vocab_size <= usize::MAX,
        forall|at: int| #[trigger]
            is_discouraged(beams_of(beams@), vocab_size, at) ==> at < beams@.len() * vocab_size,
    ensures
        map@.len() == beams@.len() * vocab_size,
        forall|at: int|
            0 <= at < map@.len() ==> #[trigger] map@[at] == is_discouraged(
                beams_of(beams@),
                vocab_size,
                at,
            ),
{
    let ghost values = beams_of(beams@);
    let len: usize = beams.len() * vocab_size;
    let mut map: Vec<bool> = Vec::new();
    while map.len() < len
        invariant
            map@.len() <= len,
            forall|at: int| 0 <= at < map@.len() ==> !#[trigger] map@[at],
        decreases len - map@.len(),
    {
        map.push(false);
    }
    let mut i: usize = 0;
    while i < beams.len()
        invariant
            values == beams_of(beams@),
            i <= beams@.len(),
            len == beams@.len() * vocab_size,
            map@.len() == len,
            forall|at: int| #[trigger]
                is_discouraged(values, vocab_size, at) ==> at < beams@.len() * vocab_size,
            forall|at: int|
                0 <= at < len ==> #[trigger] map@[at] == exists|i2: int, k2: int|
                    i2 < i && #[trigger] is_discouraged_by(values, vocab_size, at, i2, k2),
        decreases beams@.len() - i,
    {
        let seq = &beams[i].seq;
        assert(values[i as int].seq == seq@);
        let mut k: usize = seq.len();
        let first: usize = if k > LOOKBACK {
            k - LOOKBACK
        } else {
            0
        };
        while k > first
            invariant
                values == beams_of(beams@),
                i < beams@.len(),
                seq == &beams@[i as int].seq,
                values[i as int].seq == seq@,
                first <= k <= seq@.len(),
                first == (if seq@.len() > LOOKBACK {
                    seq@.len() - LOOKBACK
                } else {
                    0
                }),
                len == beams@.len() * vocab_size,
                map@.len() == len,
                forall|at: int| #[trigger]
                    is_discouraged(values, vocab_size, at) ==> at < beams@.len() * vocab_size,
                forall|at: int|
                    0 <= at < len ==> #[trigger] map@[at] == exists|i2: int, k2: int|
                        (i2 < i || i2 == i && k2 >= k) && #[trigger] is_discouraged_by(
                            values,
                            vocab_size,
                            at,
                            i2,
                            k2,
                        ),
            decreases k,
        {
            k = k - 1;
            let token = seq[k].token;
            let ghost before = map@;
            if token < TEXT_TOKENS {
                let ghost place = i * vocab_size + token;
                proof {
                    assert(is_discouraged_by(values, vocab_size, place, i as int, k as int));
                    assert(is_discouraged(values, vocab_size, place));
                    assert(0 <= i * vocab_size) by (nonlinear_arith);
                }
                let row: usize = i * vocab_size;
                map.set(row + token, true);
                assert forall|at: int| 0 <= at < len implies #[trigger] map@[at] == exists|
                    i2: int,
                    k2: int,
                |
                    (i2 < i || i2 == i && k2 >= k) && #[trigger] is_discouraged_by(
                        values,
                        vocab_size,
                        at,
                        i2,
                        k2,
                    ) by {
                    if at != place {
                        assert(map@[at] == before[at]);
                    }
                }
            } else {
                assert forall|at: int| 0 <= at < len implies #[trigger] map@[at] == exists|
                    i2: int,
                    k2: int,
                |
                    (i2 < i || i2 == i && k2 >= k) && #[trigger] is_discouraged_by(
                        values,
                        vocab_size,
                        at,
                        i2,
                        k2,
                    ) by {
                    assert(map@[at] == before[at]);
                }
            }
        }
        assert forall|at: int| 0 <= at < len implies #[trigger] map@[at] == exists|
            i2: int,
            k2: int,
        | i2 < i + 1 && #[trigger] is_discouraged_by(values, vocab_size, at, i2, k2) by {}
        i = i + 1;
    }
    map
}

/// Decides whether the special tokens are kept from being proposed: only near the start.
pub fn masks_special_tokens(max_seq_len: usize) -> (masked: bool)
    ensures
        masked == (max_seq_len <= 5),
{
    max_seq_len <= 5
}

/// The marks of the special tokens of a vocabulary.
pub open spec fn mask_of(is_special: Seq<bool>, vocab_size: usize) -> Seq<bool> {
    Seq::new(vocab_size as nat, |i: int| i < is_special.len() && is_special[i])
}

/// A token of the vocabulary is masked exactly where it is special, and only tokens of the
/// vocabulary are.
pub proof fn law_special_tokens_are_masked(is_special: Seq<bool>, vocab_size: usize, token: int)
    ensures
        mask_of(is_special, vocab_size).len() == vocab_size,
        0 <= token < vocab_size && token < is_special.len() ==> (mask_of(is_special, vocab_size)[token]
            <==> is_special[token]),
        is_special.len() <= token < vocab_size ==> !mask_of(is_special, vocab_size)[token],
        is_special.len() == vocab_size ==> mask_of(is_special, vocab_size) == is_special,
{
    if is_special.len() == vocab_size {
        assert(mask_of(is_special, vocab_size) =~= is_special);
    }
}

/// Marks the special tokens of a vocabulary, which can be kept from being proposed. `is_special`
/// says which tokens are special; those that it does not reach are not.
pub fn special_tokens_mask(is_special: &Vec<bool>, vocab_size: usize) -> (mask: Vec<bool>)
    ensures
        mask@ == mask_of(is_special@, vocab_size),
{
    let mut mask: Vec<bool> = Vec::new();
    let mut token: usize = 0;
    while token < vocab_size
        invariant
            token <= vocab_size,
            mask@.len() == token,
            forall|i: int|
                0 <= i < token ==> #[trigger] mask@[i] == (i < is_special@.len() && is_special@[i]),
        decreases vocab_size - token,
    {
        mask.push(token < is_special.len() && is_special[token]);
        token = token + 1;
    }
    assert(mask@ =~= mask_of(is_special@, vocab_size));
    mask
}

/// Copies some marks.
fn copy_marks(marks: &Vec<bool>) -> (copy: Vec<bool>)
    ensures
        copy@ == marks@,
{
    let copy = marks.clone();
    assert(copy@ =~= marks@);
    copy
}

/// Collects the log probabilities of some beams.
fn beam_log_probs(beams: &Vec<BeamNode<BeamSearchToken>>) -> (log_probs: Vec<LogProb>)
    ensures
        log_probs@ == log_probs_of(beams_of(beams@)),
{
    let ghost values = beams_of(beams@);
    let mut log_probs: Vec<LogProb> = Vec::new();
    let mut i: usize = 0;
    while i < beams.len()
        invariant
            values == beams_of(beams@),
            i <= beams@.len(),
            log_probs@ == log_probs_of(values).take(i as int),
        decreases beams@.len() - i,
    {
        log_probs.push(beams[i].log_prob);
        assert(log_probs@ =~= log_probs_of(values).take(i + 1));
        i = i + 1;
    }
    assert(log_probs@ =~= log_probs_of(values));
    log_probs
}

/// One of the model's best tokens for a beam: its number, its own log probability, and the log
/// probability of the beam with it.
#[derive(Debug, Clone, Copy, PartialEq, Eq, Structural)]
pub struct Proposal {
    pub id: i32,
    pub log_prob: LogProb,
    pub total: LogProb,
}

/// A proposal as the search takes it.
pub open spec fn continuation(proposal: Proposal) -> (BeamSearchToken, LogProb) {
    (
        BeamSearchToken { token: proposal.id as usize, _log_prob: proposal.log_prob },
        proposal.total,
    )
}

/// How many tokens the model is asked for.
pub fn top_k(beam_size: usize) -> (k: usize)
    requires
        2 * beam_size <= usize::MAX,
    ensures
        k == 2 * beam_size,
{
    beam_size * 2
}

/// Whether `conts` holds what the model proposes for each of `n_beams` beams, `k` tokens each.
pub open spec fn are_continuations(
    conts: Seq<Vec<(BeamSearchToken, LogProb)>>,
    proposals: Seq<Proposal>,
    n_beams: int,
    k: int,
) -> bool {
    &&& conts.len() == n_beams
    &&& forall|i: int|
        #![trigger conts[i]]
        0 <= i < n_beams ==> conts[i]@ == Seq::new(
            k as nat,
            |j: int| continuation(proposals[i * k + j]),
        )
}

/// Deals the model's proposals out to the beams: the first `2 * beam_size` of them are those for
/// the first beam, and so on.
pub fn deal_proposals(n_beams: usize, proposals: &[Proposal], beam_size: usize) -> (conts:
    Continuations)
    requires
        2 * beam_size <= usize::MAX,
        n_beams * (2 * beam_size) <= proposals@.len(),
    ensures
        are_continuations(conts@, proposals@, n_beams as int, 2 * beam_size),
{
    let k: usize = top_k(beam_size);
    let len: usize = proposals.len();
    let mut conts: Continuations = Vec::new();
    let mut i: usize = 0;
    while i < n_beams
        invariant
            i <= n_beams,
            k == 2 * beam_size,
            n_beams * k <= len == proposals@.len(),
            are_continuations(conts@, proposals@, i as int, k as int),
        decreases n_beams - i,
    {
        let mut beam_conts: Vec<(BeamSearchToken, LogProb)> = Vec::new();
        let mut j: usize = 0;
        while j < k
            invariant
                i < n_beams,
                j <= k,
                n_beams * k <= len == proposals@.len(),
                beam_conts@ == Seq::new(
                    j as nat,
                    |l: int| continuation(proposals@[i * k + l]),
                ),
            decreases k - j,
        {
            proof {
                assert(0 <= i * k && i * k + k <= n_beams * k) by (nonlinear_arith)
                    requires
                        0 <= i < n_beams,
                        0 <= k,
                ;
            }
            let proposal = proposals[i * k + j];
            let token = BeamSearchToken {
                token: #[verifier::truncate]
                (proposal.id as usize),
                _log_prob: proposal.log_prob,
            };
            let ghost before = beam_conts@;
            beam_conts.push((token, proposal.total));
            assert(beam_conts@ =~= Seq::new(
                (j + 1) as nat,
                |l: int| continuation(proposals@[i * k + l]),
            ));
            j = j + 1;
        }
        let ghost old_conts = conts@;
        conts.push(beam_conts);
        assert(forall|l: int| 0 <= l < i ==> conts@[l] == #[trigger] old_conts[l]);
        assert(conts@[i as int]@ == beam_conts@);
        i = i + 1;
    }
    conts
}

/// The log probabilities of some beams.
pub open spec fn log_probs_of(beams: Seq<Beam>) -> Seq<LogProb> {
    beams.map_values(|beam: Beam| beam.log_prob)
}

/// What the decoder of the model is given: the beams, laid out in rows, and the log probability of
/// each, which tokens it is discouraged from proposing, which tokens are special and whether those
/// are kept from being proposed, and how many tokens it is asked for.
#[derive(Debug)]
pub struct DecoderInput {
    pub width: usize,
    pub rows: Vec<i32>,
    pub log_probs: Vec<LogProb>,
    pub discouraged: Vec<bool>,
    pub special_tokens_mask: Vec<bool>,
    pub mask_special_tokens: bool,
    pub top_k: usize,
}

/// Whether the decoder is given some beams as it takes them.
pub open spec fn is_shown(
    input: DecoderInput,
    beams: Seq<Beam>,
    special_tokens_mask: Seq<bool>,
    vocab_size: usize,
    beam_size: usize,
) -> bool {
    &&& is_longest(beams, input.width as int)
    &&& input.log_probs@ == log_probs_of(beams)
    &&& input.special_tokens_mask@ == special_tokens_mask
    &&& input.rows@ == decoder_rows(beams, input.width as int, beams.len() as int)
    &&& input.discouraged@.len() == beams.len() * vocab_size
    &&& forall|at: int|
        0 <= at < input.discouraged@.len() ==> #[trigger] input.discouraged@[at] == is_discouraged(
            beams,
            vocab_size,
            at,
        )
    &&& input.mask_special_tokens == (input.width <= 5)
    &&& input.top_k == 2 * beam_size
}

/// Whether the model can propose something for what it is given.
pub open spec fn proposes<F: Fn(&DecoderInput) -> Vec<Proposal>>(
    forward: F,
    input: DecoderInput,
    proposals: Vec<Proposal>,
) -> bool {
    call_ensures(forward, (&input,), proposals)
}

/// Asks the model for the next tokens of some beams. `forward` is the model: given the beams laid
/// out in rows, it proposes `2 * beam_size` tokens for each, and adds the log probability of each
/// token to that of its beam. One of the beams must hold a token.
pub fn beamsearch_next<F: Fn(&DecoderInput) -> Vec<Proposal>>(
    beams: &Vec<BeamNode<BeamSearchToken>>,
    special_tokens_mask: &Vec<bool>,
    vocab_size: usize,
    beam_size: usize,
    forward: F,
) -> (conts: Continuations)
    requires
        exists|i: int| 0 <= i < beams@.len() && (#[trigger] beams@[i]).seq@.len() > 0,
        2 * beam_size <= usize::MAX,
        beams@.len() * vocab_size <= usize::MAX,
        forall|at: int| #[trigger]
            is_discouraged(beams_of(beams@), vocab_size, at) ==> at < beams@.len() * vocab_size,
        forall|input: &DecoderInput|
            is_shown(
                *input,
                beams_of(beams@),
                special_tokens_mask@,
                vocab_size,
                beam_size,
            ) ==> #[trigger] call_requires(forward, (input,)),
        forall|input: DecoderInput, proposals: Vec<Proposal>|
            is_shown(
                input,
                beams_of(beams@),
                special_tokens_mask@,
                vocab_size,
                beam_size,
            ) && #[trigger] proposes(forward, input, proposals) ==> beams@.len() * (2 * beam_size) <= proposals@.len(),
    ensures
        exists|input: DecoderInput, proposals: Vec<Proposal>|
            {
                &&& is_shown(
                    input,
                    beams_of(beams@),
                    special_tokens_mask@,
                    vocab_size,
                    beam_size,
                )
                &&& #[trigger] proposes(forward, input, proposals)
                &&& are_continuations(
                    conts@,
                    proposals@,
                    beams@.len() as int,
                    2 * beam_size,
                )
            },
{
    let (width, rows) = flatten_beams(beams);
    let discouraged = penalty_map(beams, vocab_size);
    let input = DecoderInput {
        width,
        rows,
        log_probs: beam_log_probs(beams),
        discouraged,
        special_tokens_mask: copy_marks(special_tokens_mask),
        mask_special_tokens: masks_special_tokens(width),
        top_k: top_k(beam_size),
    };
    assert(is_shown(input, beams_of(beams@), special_tokens_mask@, vocab_size, beam_size));
    let proposals = forward(&input);
    assert(proposes(forward, input, proposals));
    deal_proposals(beams.len(), proposals.as_slice(), beam_size)
}

/// The beam that a search starts from.
pub open spec fn start_beam(initial_tokens: Seq<usize>) -> Beam {
    Beam {
        seq: initial_tokens.map_values(
            |token: usize| BeamSearchToken { token, _log_prob: certain() },
        ),
        log_prob: certain(),
    }
}

/// Makes the beam that a search starts from.
pub fn initial_beam(initial_tokens: &Vec<usize>) -> (node: BeamNode<BeamSearchToken>)
    ensures
        node@ == start_beam(initial_tokens@),
{
    let log_prob = LogProb { rank: 0, margin_rank: FIVE_RANK };
    let mut seq: Vec<BeamSearchToken> = Vec::new();
    let mut i: usize = 0;
    while i < initial_tokens.len()
        invariant
            i <= initial_tokens@.len(),
            log_prob == certain(),
            seq@ == start_beam(initial_tokens@).seq.take(i as int),
        decreases initial_tokens@.len() - i,
    {
        seq.push(BeamSearchToken { token: initial_tokens[i], _log_prob: log_prob });
        assert(seq@ =~= start_beam(initial_tokens@).seq.take(i + 1));
        i = i + 1;
    }
    assert(seq@ =~= start_beam(initial_tokens@).seq);
    BeamNode { seq, log_prob }
}

/// The numbers of some tokens.
pub open spec fn token_ids(toks: Seq<BeamSearchToken>) -> Seq<usize> {
    toks.map_values(|tok: BeamSearchToken| tok.token)
}

/// What may be said when it is asked whether a token sequence is complete: the truth.
pub open spec fn truth(end_token: usize) -> spec_fn(Seq<BeamSearchToken>, bool) -> bool {
    |toks: Seq<BeamSearchToken>, done: bool| done == finished(toks, end_token)
}

/// Whether some tokens are what a search with the model `next` can find for one window of audio.
#[verifier::opaque]
pub open spec fn transcribes<N: Fn(&Vec<BeamNode<BeamSearchToken>>) -> Continuations>(
    next: N,
    initial_tokens: Seq<usize>,
    end_token: usize,
    tokens: Seq<usize>,
) -> bool {
    exists|toks: Seq<BeamSearchToken>|
        #[trigger] finds(
            next,
            truth(end_token),
            seq![start_beam(initial_tokens)],
            BEAM_SIZE,
            MAX_DEPTH,
            toks,
        ) && tokens == token_ids(toks)
}

/// The numbers of some tokens, taken out of them.
fn take_ids(toks: &Vec<BeamSearchToken>) -> (ids: Vec<usize>)
    ensures
        ids@ == token_ids(toks@),
{
    let mut ids: Vec<usize> = Vec::new();
    let mut i: usize = 0;
    while i < toks.len()
        invariant
            i <= toks@.len(),
            ids@ == token_ids(toks@).take(i as int),
        decreases toks@.len() - i,
    {
        ids.push(toks[i].token);
        assert(ids@ =~= token_ids(toks@).take(i + 1));
        i = i + 1;
    }
    assert(ids@ =~= token_ids(toks@));
    ids
}

/// Finds the tokens of one window of audio. `next` is the model, which has heard the window.
fn search_tokens<N: Fn(&Vec<BeamNode<BeamSearchToken>>) -> Continuations>(
    next: N,
    initial_tokens: &Vec<usize>,
    end_token: usize,
) -> (tokens: Vec<usize>)
    requires
        forall|beams: &Vec<BeamNode<BeamSearchToken>>|
            beams@.len() > 0 ==> #[trigger] call_requires(next, (beams,)),
    ensures
        transcribes(next, initial_tokens@, end_token, tokens@),
{
    let mut initial: Vec<BeamNode<BeamSearchToken>> = Vec::new();
    initial.push(initial_beam(initial_tokens));
    assert(beams_of(initial@) =~= seq![start_beam(initial_tokens@)]);
    let is_finished = |toks: &[BeamSearchToken]| -> (done: bool)
        ensures
            done == finished(toks@, end_token),
        { beamsearch_is_finished(toks, end_token) };
    let ghost done = answers_of(is_finished);
    let found = beam_search(initial, next, is_finished, BEAM_SIZE, MAX_DEPTH);
    proof {
        reveal(transcribes);
        lemma_finds_more(
            next,
            done,
            truth(end_token),
            seq![start_beam(initial_tokens@)],
            BEAM_SIZE,
            MAX_DEPTH,
            found@,
        );
    }
    take_ids(&found)
}

/// Whether `decode` can refuse to spell some tokens out.
pub open spec fn fails_to_decode<D: Fn(&Vec<usize>) -> Result<String, E>, E>(
    decode: D,
    tokens: Seq<usize>,
    error: E,
) -> bool {
    exists|given: Vec<usize>|
        given@ == tokens && #[trigger] call_ensures(decode, (&given,), Err(error))
}

/// Whether `result` is what one window of audio can come to.
pub open spec fn is_window_text<
    N: Fn(&Vec<BeamNode<BeamSearchToken>>) -> Continuations,
    D: Fn(&Vec<usize>) -> Result<String, E>,
    E,
>(
    next: N,
    decode: D,
    initial_tokens: Seq<usize>,
    end_token: usize,
    result: Result<(String, Vec<usize>), E>,
) -> bool {
    match result {
        Ok((text, tokens)) => transcribes(next, initial_tokens, end_token, tokens@)
            && call_ensures(decode, (&tokens,), Ok(text)),
        Err(e) => exists|tokens: Seq<usize>|
            #[trigger] transcribes(next, initial_tokens, end_token, tokens) && fails_to_decode(
                decode,
                tokens,
                e,
            ),
    }
}

/// Finds the tokens of one window of audio, and spells them out. `next` is the model, which has
/// heard the window; `decode` spells tokens out, or refuses to.
pub fn mels_to_text<
    N: Fn(&Vec<BeamNode<BeamSearchToken>>) -> Continuations,
    D: Fn(&Vec<usize>) -> Result<String, E>,
    E,
>(next: N, decode: D, initial_tokens: &Vec<usize>, end_token: usize) -> (result: Result<
    (String, Vec<usize>),
    E,
>)
    requires
        forall|beams: &Vec<BeamNode<BeamSearchToken>>|
            beams@.len() > 0 ==> #[trigger] call_requires(next, (beams,)),
        forall|tokens: &Vec<usize>| #[trigger] call_requires(decode, (tokens,)),
    ensures
        is_window_text(next, decode, initial_tokens@, end_token, result),
{
    let tokens = search_tokens(next, initial_tokens, end_token);
    match decode(&tokens) {
        Ok(text) => Ok((text, tokens)),
        Err(e) => {
            assert(fails_to_decode(decode, tokens@, e));
            Err(e)
        },
    }
}

/// The first `n` of some chunks of tokens, one after the other.
pub open spec fn joined(chunks: Seq<Vec<usize>>, n: int) -> Seq<usize>
    decreases n,
{
    if n <= 0 {
        Seq::empty()
    } else {
        joined(chunks, n - 1) + chunks[n - 1]@
    }
}

/// Whether `chunk` is what `hear` gives for window `i` of a waveform.
pub open spec fn hears<H: Fn(usize, usize) -> Result<Vec<usize>, E>, E>(
    hear: H,
    n_samples: usize,
    sample_rate: usize,
    window_len: usize,
    i: int,
    chunk: Result<Vec<usize>, E>,
) -> bool {
    let window = window_at(n_samples, sample_rate, window_len, i);
    call_ensures(hear, (window.0 as usize, window.1 as usize), chunk)
}

/// Whether some chunks are what `hear` gives for the first windows of a waveform.
pub open spec fn all_heard<H: Fn(usize, usize) -> Result<Vec<usize>, E>, E>(
    hear: H,
    n_samples: usize,
    sample_rate: usize,
    window_len: usize,
    chunks: Seq<Vec<usize>>,
) -> bool {
    forall|i: int|
        #![trigger chunks[i]]
        0 <= i < chunks.len() ==> hears(
            hear,
            n_samples,
            sample_rate,
            window_len,
            i,
            Ok(chunks[i]),
        )
}

/// Whether `result` is what the transcription of a waveform can come to.
pub open spec fn is_transcript<
    H: Fn(usize, usize) -> Result<Vec<usize>, E>,
    D: Fn(&Vec<usize>) -> Result<String, E>,
    E,
>(
    n_samples: usize,
    sample_rate: usize,
    window_len: usize,
    hear: H,
    decode: D,
    result: Result<(String, Vec<usize>), E>,
) -> bool {
    match result {
        Ok((text, tokens)) => {
            &&& call_ensures(decode, (&tokens,), Ok(text))
            &&& exists|chunks: Seq<Vec<usize>>|
                {
                    &&& chunks.len() == window_count(n_samples, sample_rate, window_len)
                    &&& #[trigger] all_heard(hear, n_samples, sample_rate, window_len, chunks)
                    &&& tokens@ == joined(chunks, chunks.len() as int)
                }
        },
        Err(e) => exists|chunks: Seq<Vec<usize>>|
            #![trigger all_heard(hear, n_samples, sample_rate, window_len, chunks)]
            {
                &&& chunks.len() <= window_count(n_samples, sample_rate, window_len)
                &&& all_heard(hear, n_samples, sample_rate, window_len, chunks)
                &&& {
                    ||| chunks.len() < window_count(n_samples, sample_rate, window_len)
                        && hears(
                        hear,
                        n_samples,
                        sample_rate,
                        window_len,
                        chunks.len() as int,
                        Err(e),
                    )
                    ||| chunks.len() > 0 && fails_to_decode(
                        decode,
                        joined(chunks, chunks.len() as int),
                        e,
                    )
                }
            },
    }
}

/// Transcribes a waveform window by window.
///
/// `hear` finds the tokens of the samples in a window, and `decode` spells tokens out. The tokens
/// of all windows come one after the other, and the text spells all of them out. The first error
/// ends the transcription.
pub fn waveform_to_text<
    H: Fn(usize, usize) -> Result<Vec<usize>, E>,
    D: Fn(&Vec<usize>) -> Result<String, E>,
    E,
>(
    n_samples: usize,
    sample_rate: usize,
    window_len: usize,
    hear: H,
    decode: D,
) -> (result: Result<(String, Vec<usize>), E>)
    requires
        forall|start: usize, end: usize|
            start <= end <= n_samples ==> #[trigger] call_requires(hear, (start, end)),
        forall|tokens: &Vec<usize>| #[trigger] call_requires(decode, (tokens,)),
    ensures
        is_transcript(n_samples, sample_rate, window_len, hear, decode, result),
{
    let windows = waveform_windows(n_samples, sample_rate, window_len);
    let ghost mut chunks: Seq<Vec<usize>> = Seq::empty();
    let mut text = String::new();
    let mut tokens: Vec<usize> = Vec::new();
    let mut i: usize = 0;
    while i < windows.len()
        invariant
            i <= windows@.len(),
            windows@.len() == window_count(n_samples, sample_rate, window_len),
            forall|k: int|
                #![trigger windows@[k]]
                0 <= k < windows@.len() ==> (windows@[k].0 as int, windows@[k].1 as int)
                    == window_at(n_samples, sample_rate, window_len, k) && windows@[k].0
                    <= windows@[k].1 <= n_samples,
            forall|start: usize, end: usize|
                start <= end <= n_samples ==> #[trigger] call_requires(hear, (start, end)),
            forall|tokens: &Vec<usize>| #[trigger] call_requires(decode, (tokens,)),
            chunks.len() == i,
            all_heard(hear, n_samples, sample_rate, window_len, chunks),
            tokens@ == joined(chunks, i as int),
            i > 0 ==> call_ensures(decode, (&tokens,), Ok(text)),
        decreases windows@.len() - i,
    {
        let (start, end) = windows[i];
        let mut new_tokens = match hear(start, end) {
            Ok(new_tokens) => new_tokens,
            Err(e) => {
                assert(hears(hear, n_samples, sample_rate, window_len, i as int, Err(e)));
                return Err(e);
            },
        };
        let ghost old_chunks = chunks;
        proof {
            chunks = chunks.push(new_tokens);
            assert(forall|k: int| 0 <= k < i ==> chunks[k] == #[trigger] old_chunks[k]);
            assert(hears(hear, n_samples, sample_rate, window_len, i as int, Ok(new_tokens)));
            lemma_joined_extends(old_chunks, new_tokens, i as int);
            assert(all_heard(hear, n_samples, sample_rate, window_len, chunks));
        }
        tokens.append(&mut new_tokens);
        i = i + 1;
        text = match decode(&tokens) {
            Ok(text) => text,
            Err(e) => {
                assert(fails_to_decode(decode, joined(chunks, chunks.len() as int), e));
                return Err(e);
            },
        };
    }
    Ok((text, tokens))
}

proof fn lemma_joined_extends(chunks: Seq<Vec<usize>>, chunk: Vec<usize>, n: int)
    requires
        n <= chunks.len(),
    ensures
        joined(chunks.push(chunk), n) == joined(chunks, n),
    decreases n,
{
    if n > 0 {
        lemma_joined_extends(chunks, chunk, n - 1);
        assert(chunks.push(chunk)[n - 1] == chunks[n - 1]);
    }
}

/// Where two chunks are joined because tokens agree, they agree at the joint.
pub proof fn law_chunks_agree_at_joint(
    prev: Seq<usize>,
    curr: Seq<usize>,
    n: int,
    min_n_overlaps: usize,
    prev_index: int,
    curr_index: int,
)
    requires
        n <= prev.len(),
        n <= curr.len(),
        min_n_overlaps > 0,
        joins(prev, curr, n, min_n_overlaps, prev_index, curr_index),
    ensures
        0 <= prev_index < prev.len(),
        0 <= curr_index < curr.len(),
        prev[prev_index] == curr[curr_index],
{
}

/// A sequence of tokens is never complete before its first token, and always when it is as long as
/// it may grow.
pub proof fn law_length_bounds(toks: Seq<BeamSearchToken>, end_token: usize)
    ensures
        finished(toks, end_token) ==> toks.len() > 0,
        toks.len() >= MAX_TOKENS ==> finished(toks, end_token),
{
}

/// A sequence that ends in the end token is complete, whatever came before.
pub proof fn law_end_token_completes(toks: Seq<BeamSearchToken>, end_token: usize)
    requires
        toks.len() > 0,
        toks[toks.len() - 1].token == end_token,
    ensures
        finished(toks, end_token),
{
}

/// A sequence that says one text token three times in a row is complete.
pub proof fn law_stutter_completes(toks: Seq<BeamSearchToken>, end_token: usize)
    requires
        toks.len() >= 3,
        toks[toks.len() - 1].token == toks[toks.len() - 2].token,
        toks[toks.len() - 2].token == toks[toks.len() - 3].token,
        toks[toks.len() - 1].token < 50257,
    ensures
        finished(toks, end_token),
{
}

/// A sequence of more than six tokens whose last three tokens were said before, in that order, is
/// complete.
pub proof fn law_loop_completes(toks: Seq<BeamSearchToken>, end_token: usize, at: int)
    requires
        toks.len() > 6,
        0 <= at,
        at + 3 <= toks.len() - 3,
        forall|k: int|
            0 <= k < 3 ==> (#[trigger] toks[at + k]).token == toks[toks.len() - 3 + k].token,
    ensures
        finished(toks, end_token),
{
    assert(toks[at + 0].token == toks[toks.len() - 3].token);
    assert(toks[at + 1].token == toks[toks.len() - 2].token);
    assert(toks[at + 2].token == toks[toks.len() - 1].token);
    assert(repeats_tail_at(toks, at));
}

/// A sequence of fewer than 25 tokens goes on as long as its last token is not the end token, its
/// last three tokens are not one text token three times, and, where it has more than six tokens,
/// the last three were not said before, in that order. A text token may so be said twice in a row,
/// a special one more often, and the first three tokens may be said twice.
pub proof fn law_new_words_go_on(toks: Seq<BeamSearchToken>, end_token: usize)
    requires
        toks.len() < 25,
        toks.len() > 0 ==> toks[toks.len() - 1].token != end_token,
        toks.len() >= 3 ==> toks[toks.len() - 1].token != toks[toks.len() - 2].token
            || toks[toks.len() - 1].token != toks[toks.len() - 3].token || toks[toks.len() - 1].token
            >= 50257,
        toks.len() > 6 ==> forall|at: int|
            0 <= at && at + 3 <= toks.len() - 3 ==> (#[trigger] toks[at]).token
                != toks[toks.len() - 3].token || toks[at + 1].token != toks[toks.len() - 2].token
                || toks[at + 2].token != toks[toks.len() - 1].token,
    ensures
        !finished(toks, end_token),
{
    if toks.len() > 6 {
        assert forall|at: int| 0 <= at <= toks.len() - 6 implies !#[trigger] repeats_tail_at(
            toks,
            at,
        ) by {
            assert(toks[at].token != toks[toks.len() - 3].token || toks[at + 1].token
                != toks[toks.len() - 2].token || toks[at + 2].token != toks[toks.len() - 1].token);
        }
    }
}

/// Twenty-five tokens are always enough.
pub proof fn law_growth_is_bounded(toks: Seq<BeamSearchToken>, end_token: usize)
    requires
        toks.len() >= 25,
    ensures
        finished(toks, end_token),
{
}

/// Only which tokens were said decides whether a sequence is complete, not how likely they are.
pub proof fn law_only_tokens_decide(
    toks: Seq<BeamSearchToken>,
    others: Seq<BeamSearchToken>,
    end_token: usize,
)
    requires
        toks.len() == others.len(),
        forall|i: int| 0 <= i < toks.len() ==> (#[trigger] toks[i]).token == others[i].token,
    ensures
        finished(toks, end_token) == finished(others, end_token),
{
    assert forall|at: int| 0 <= at <= toks.len() - 6 implies #[trigger] repeats_tail_at(toks, at)
        == repeats_tail_at(others, at) by {}
    if repeats_tail(toks) {
        let at = choose|at: int| 0 <= at <= toks.len() - 6 && #[trigger] repeats_tail_at(toks, at);
        assert(repeats_tail_at(others, at));
    }
    if repeats_tail(others) {
        let at = choose|at: int| 0 <= at <= others.len() - 6 && #[trigger] repeats_tail_at(others, at);
        assert(repeats_tail_at(toks, at));
    }
}

/// What is found for a window begins with the tokens that the search was given and adds at most
/// twelve. Where it adds fewer, the sequence was complete, so that nothing that goes on is cut off.
/// Nothing at all is found where the model proposes nothing.
pub proof fn law_transcript_continues<N: Fn(&Vec<BeamNode<BeamSearchToken>>) -> Continuations>(
    next: N,
    initial_tokens: Seq<usize>,
    end_token: usize,
    tokens: Seq<usize>,
)
    requires
        transcribes(next, initial_tokens, end_token, tokens),
        tokens.len() > 0,
    ensures
        initial_tokens.len() <= tokens.len() <= initial_tokens.len() + 12,
        tokens.take(initial_tokens.len() as int) == initial_tokens,
        tokens.len() < initial_tokens.len() + 12 ==> exists|toks: Seq<BeamSearchToken>|
            toks.len() == tokens.len() && (forall|i: int|
                0 <= i < toks.len() ==> (#[trigger] toks[i]).token == tokens[i])
                && #[trigger] finished(toks, end_token),
{
    let start = start_beam(initial_tokens);
    let toks = lemma_transcribes(next, initial_tokens, end_token, tokens);
    law_finds_continuation(next, truth(end_token), seq![start], BEAM_SIZE, MAX_DEPTH, toks);
    let more = choose|more: int|
        0 <= more <= MAX_DEPTH && #[trigger] continues(toks, seq![start], more);
    lemma_continues_one(toks, start, more);
    if continues(toks, seq![start], MAX_DEPTH as int) {
        lemma_continues_one(toks, start, MAX_DEPTH as int);
    } else {
        assert(finished(toks, end_token));
    }
    lemma_begins_with(toks, initial_tokens);
}

proof fn lemma_transcribes<N: Fn(&Vec<BeamNode<BeamSearchToken>>) -> Continuations>(
    next: N,
    initial_tokens: Seq<usize>,
    end_token: usize,
    tokens: Seq<usize>,
) -> (toks: Seq<BeamSearchToken>)
    requires
        transcribes(next, initial_tokens, end_token, tokens),
    ensures
        finds(
            next,
            truth(end_token),
            seq![start_beam(initial_tokens)],
            BEAM_SIZE,
            MAX_DEPTH,
            toks,
        ),
        tokens == token_ids(toks),
{
    reveal(transcribes);
    choose|toks: Seq<BeamSearchToken>|
        #[trigger] finds(
            next,
            truth(end_token),
            seq![start_beam(initial_tokens)],
            BEAM_SIZE,
            MAX_DEPTH,
            toks,
        ) && tokens == token_ids(toks)
}

proof fn lemma_continues_one(toks: Seq<BeamSearchToken>, start: Beam, more: int)
    requires
        continues(toks, seq![start], more),
    ensures
        toks.len() == start.seq.len() + more,
        toks.take(start.seq.len() as int) == start.seq,
{
    let i = choose|i: int|
        0 <= i < seq![start].len() && toks.len() == (#[trigger] seq![start][i]).seq.len() + more
            && toks.take(seq![start][i].seq.len() as int) == seq![start][i].seq;
    assert(seq![start][i] == start);
}

proof fn lemma_begins_with(toks: Seq<BeamSearchToken>, initial_tokens: Seq<usize>)
    requires
        initial_tokens.len() <= toks.len(),
        toks.take(initial_tokens.len() as int) == start_beam(initial_tokens).seq,
    ensures
        token_ids(toks).take(initial_tokens.len() as int) == initial_tokens,
{
    let start = start_beam(initial_tokens).seq;
    assert forall|i: int| 0 <= i < initial_tokens.len() implies token_ids(toks)[i]
        == #[trigger] initial_tokens[i] by {
        assert(toks.take(start.len() as int)[i] == start[i]);
    }
    assert(token_ids(toks).take(initial_tokens.len() as int) =~= initial_tokens);
}

/// The search for a window is one in which a single beam goes on each time, for up to twelve
/// tokens, and in which a sequence is taken for complete exactly where it is.
pub proof fn law_search_is_greedy<N: Fn(&Vec<BeamNode<BeamSearchToken>>) -> Continuations>(
    next: N,
    initial_tokens: Seq<usize>,
    end_token: usize,
    tokens: Seq<usize>,
)
    requires
        transcribes(next, initial_tokens, end_token, tokens),
    ensures
        exists|toks: Seq<BeamSearchToken>|
            #[trigger] finds(
                next,
                truth(end_token),
                seq![start_beam(initial_tokens)],
                1,
                12,
                toks,
            ) && toks.len() == tokens.len() && forall|i: int|
                0 <= i < toks.len() ==> (#[trigger] toks[i]).token == tokens[i],
        forall|toks: Seq<BeamSearchToken>, done: bool|
            #![trigger truth(end_token)(toks, done)]
            truth(end_token)(toks, done) <==> done == finished(toks, end_token),
{
    let toks = lemma_transcribes(next, initial_tokens, end_token, tokens);
    assert(finds(next, truth(end_token), seq![start_beam(initial_tokens)], 1, 12, toks));
}

/// Ranks keep the order of the numbers. Without the sign bit a greater number has greater bits,
/// with it a greater number has smaller bits, and a number with it is never above one without. Both
/// zeros have the same rank.
pub proof fn law_ranks_keep_order(a: u64, b: u64)
    ensures
        a < 0x8000_0000_0000_0000 && b < 0x8000_0000_0000_0000 ==> (bits_rank(a) < bits_rank(b) <==> a
            < b),
        a >= 0x8000_0000_0000_0000 && b >= 0x8000_0000_0000_0000 ==> (bits_rank(a) < bits_rank(b)
            <==> a > b),
        a >= 0x8000_0000_0000_0000 && b < 0x8000_0000_0000_0000 ==> bits_rank(a) <= bits_rank(b) && (
        bits_rank(a) == bits_rank(b) <==> a == 0x8000_0000_0000_0000 && b == 0),
{
}

/// The beam that a search starts from is certain: its log probability is zero, and with the lead it
/// is five. A double precision number without sign is its fraction, of 52 bits, added to one and
/// doubled as often as the exponent says, less 1023; here that is one and a quarter, doubled twice.
pub proof fn law_start_is_certain(initial_tokens: Seq<usize>, bits: u64)
    requires
        bits == (1023 + 2) * 0x10_0000_0000_0000int + 0x10_0000_0000_0000int / 4,
    ensures
        start_beam(initial_tokens).log_prob.rank == bits_rank(0),
        start_beam(initial_tokens).log_prob.margin_rank == bits_rank(bits),
        start_beam(initial_tokens).seq.len() == initial_tokens.len(),
        forall|i: int|
            0 <= i < initial_tokens.len() ==> (#[trigger] start_beam(initial_tokens).seq[i]).token
                == initial_tokens[i] && start_beam(initial_tokens).seq[i]._log_prob.rank
                == bits_rank(0),
{
}

proof fn lemma_agreements_count(prev: Seq<usize>, curr: Seq<usize>, offset: int, upto: int)
    requires
        0 <= upto,
    ensures
        agreeing_places(prev, curr, offset, upto).finite(),
        agreements(prev, curr, offset, upto) == agreeing_places(prev, curr, offset, upto).len(),
    decreases upto,
{
    let all = agreeing_places(prev, curr, offset, upto);
    if upto == 0 {
        assert(all =~= Set::empty());
    } else {
        let fewer = agreeing_places(prev, curr, offset, upto - 1);
        lemma_agreements_count(prev, curr, offset, upto - 1);
        if prev[prev.len() - 1 - offset + (upto - 1)] == curr[upto - 1] {
            assert(all =~= fewer.insert(upto - 1));
        } else {
            assert(all =~= fewer);
        }
    }
}

/// The places, of the first `upto`, where the current tokens agree with the last `offset + 1`
/// previous ones.
pub open spec fn agreeing_places(
    prev: Seq<usize>,
    curr: Seq<usize>,
    offset: int,
    upto: int,
) -> Set<int> {
    Set::new(|k: int| 0 <= k < upto && prev[prev.len() - 1 - offset + k] == curr[k])
}

/// An overlap counts each place at which both chunks hold the same token, and no other.
pub proof fn law_overlap_counts_agreements(prev: Seq<usize>, curr: Seq<usize>, offset: int)
    requires
        0 <= offset < prev.len(),
        offset < curr.len(),
    ensures
        overlap_count(prev, curr, offset) == agreeing_places(prev, curr, offset, offset + 1).len(),
        overlap_count(prev, curr, offset) <= offset + 1,
{
    lemma_agreements_count(prev, curr, offset, offset + 1);
    lemma_agreements_bound(prev, curr, offset, offset + 1);
}

proof fn lemma_agreements_bound(prev: Seq<usize>, curr: Seq<usize>, offset: int, upto: int)
    requires
        0 <= upto,
    ensures
        agreements(prev, curr, offset, upto) <= upto,
    decreases upto,
{
    if upto > 0 {
        lemma_agreements_bound(prev, curr, offset, upto - 1);
    }
}

proof fn lemma_agreements_full(prev: Seq<usize>, curr: Seq<usize>, offset: int, upto: int)
    requires
        0 <= upto,
        forall|k: int| 0 <= k < upto ==> prev[prev.len() - 1 - offset + k] == #[trigger] curr[k],
    ensures
        agreements(prev, curr, offset, upto) == upto,
    decreases upto,
{
    if upto > 0 {
        lemma_agreements_full(prev, curr, offset, upto - 1);
        assert(prev[prev.len() - 1 - offset + (upto - 1)] == curr[upto - 1]);
    }
}

proof fn lemma_agreements_none(prev: Seq<usize>, curr: Seq<usize>, offset: int, upto: int)
    requires
        offset < prev.len(),
        0 <= upto <= offset + 1,
        upto <= curr.len(),
        forall|i: int, k: int| 0 <= i < prev.len() && 0 <= k < curr.len() ==> prev[i] != curr[k],
    ensures
        agreements(prev, curr, offset, upto) == 0,
    decreases upto,
{
    if upto > 0 {
        lemma_agreements_none(prev, curr, offset, upto - 1);
    }
}

/// Where the current chunk begins with the last `m` tokens of the previous one, all of these count,
/// so that the chunks are joined whenever no more than `m` are asked for. Where no token is in both
/// chunks, nothing counts.
pub proof fn law_repeated_end_counts(prev: Seq<usize>, curr: Seq<usize>, m: int)
    requires
        0 < m <= prev.len(),
        m <= curr.len(),
    ensures
        prev.subrange(prev.len() - m, prev.len() as int) == curr.take(m) ==> overlap_count(
            prev,
            curr,
            m - 1,
        ) == m,
        (forall|i: int, k: int|
            0 <= i < prev.len() && 0 <= k < curr.len() ==> prev[i] != curr[k]) ==> overlap_count(
            prev,
            curr,
            m - 1,
        ) == 0,
{
    if prev.subrange(prev.len() - m, prev.len() as int) == curr.take(m) {
        assert forall|k: int| 0 <= k < m implies prev[prev.len() - 1 - (m - 1) + k]
            == #[trigger] curr[k] by {
            assert(prev.subrange(prev.len() - m, prev.len() as int)[k] == curr.take(m)[k]);
        }
        lemma_agreements_full(prev, curr, m - 1, m);
    }
    if forall|i: int, k: int| 0 <= i < prev.len() && 0 <= k < curr.len() ==> prev[i] != curr[k] {
        lemma_agreements_none(prev, curr, m - 1, m);
    }
}

/// Two chunks are joined where the most tokens agree, no token before the joint agrees, and at
/// least as many tokens agree as are asked for. The joint lies in the last `max_n_offsets` of the
/// previous tokens as far as the current ones reach back.
pub proof fn law_joint_is_best(
    prev: Seq<usize>,
    curr: Seq<usize>,
    max_n_offsets: usize,
    min_n_overlaps: usize,
    prev_index: int,
    curr_index: int,
    offset: int,
)
    requires
        min_n_overlaps > 0,
        joins(
            prev,
            curr,
            offsets_tried(prev, curr, max_n_offsets),
            min_n_overlaps,
            prev_index,
            curr_index,
        ),
        0 <= offset < max_n_offsets,
        offset < prev.len(),
        offset < curr.len(),
    ensures
        ({
            let chosen = prev.len() - 1 - (prev_index - curr_index);
            &&& 0 <= chosen < max_n_offsets
            &&& chosen < prev.len()
            &&& chosen < curr.len()
            &&& 0 <= curr_index <= chosen
            &&& prev[prev_index] == curr[curr_index]
            &&& forall|k: int|
                0 <= k < curr_index ==> prev[prev.len() - 1 - chosen + k] != #[trigger] curr[k]
            &&& overlap_count(prev, curr, chosen) >= min_n_overlaps
            &&& overlap_count(prev, curr, offset) <= overlap_count(prev, curr, chosen)
            &&& offset < chosen ==> overlap_count(prev, curr, offset) < overlap_count(
                prev,
                curr,
                chosen,
            )
        }),
{
    let n = offsets_tried(prev, curr, max_n_offsets);
    if no_overlap(prev, curr, n) && prev_index == 0 && curr_index == 0 && min_n_overlaps == 0 {
    } else {
        let chosen = choose|o: int|
            #![trigger best_offset(prev, curr, n, o)]
            {
                &&& best_offset(prev, curr, n, o)
                &&& overlap_count(prev, curr, o) >= min_n_overlaps
                &&& first_agreement(prev, curr, o, curr_index)
                &&& prev_index == overlap_start(prev, o) + curr_index
            };
        assert(chosen == prev.len() - 1 - (prev_index - curr_index));
        assert(overlap_count(prev, curr, offset) <= overlap_count(prev, curr, chosen));
        assert forall|k: int| 0 <= k < curr_index implies prev[prev.len() - 1 - chosen + k]
            != #[trigger] curr[k] by {
            assert(!agrees_at(prev, curr, chosen, k));
        }
    }
}

/// Where no token need agree, the chunks are always joined: where the most tokens agree, or at the
/// start of both where none do.
pub proof fn law_joined_without_minimum(
    indices: Option<(usize, usize)>,
    prev: Seq<usize>,
    curr: Seq<usize>,
    max_n_offsets: usize,
)
    requires
        is_overlap(indices, prev, curr, max_n_offsets, 0),
    ensures
        indices is Some,
        (forall|i: int, k: int|
            0 <= i < prev.len() && 0 <= k < curr.len() ==> prev[i] != curr[k]) ==> indices == Some(
            (0usize, 0usize),
        ),
        indices.unwrap() != (0usize, 0usize) ==> prev[indices.unwrap().0 as int]
            == curr[indices.unwrap().1 as int],
{
    let n = offsets_tried(prev, curr, max_n_offsets);
    let (prev_index, curr_index) = indices.unwrap();
    if !(no_overlap(prev, curr, n) && prev_index == 0 && curr_index == 0) {
        let offset = choose|offset: int|
            #![trigger best_offset(prev, curr, n, offset)]
            {
                &&& best_offset(prev, curr, n, offset)
                &&& overlap_count(prev, curr, offset) >= 0
                &&& first_agreement(prev, curr, offset, curr_index as int)
                &&& prev_index == overlap_start(prev, offset) + curr_index
            };
        assert(agrees_at(prev, curr, offset, curr_index as int));
    }
}

/// Where the current chunk begins with the last `m` tokens of the previous one, and `m` is enough
/// and within reach, the chunks are joined. Where no token is in both chunks, they are not.
pub proof fn law_repeated_end_is_found(
    indices: Option<(usize, usize)>,
    prev: Seq<usize>,
    curr: Seq<usize>,
    max_n_offsets: usize,
    min_n_overlaps: usize,
    m: int,
)
    requires
        is_overlap(indices, prev, curr, max_n_offsets, min_n_overlaps),
        min_n_overlaps > 0,
    ensures
        min_n_overlaps <= m <= max_n_offsets && m <= prev.len() && m <= curr.len() && prev.subrange(
            prev.len() - m,
            prev.len() as int,
        ) == curr.take(m) ==> indices is Some,
        (forall|i: int, k: int|
            0 <= i < prev.len() && 0 <= k < curr.len() ==> prev[i] != curr[k]) ==> indices is None,
        indices is Some ==> indices.unwrap().0 < prev.len() && indices.unwrap().1 < curr.len()
            && prev[indices.unwrap().0 as int] == curr[indices.unwrap().1 as int],
{
    let n = offsets_tried(prev, curr, max_n_offsets);
    if min_n_overlaps <= m <= max_n_offsets && m <= prev.len() && m <= curr.len() && prev.subrange(
        prev.len() - m,
        prev.len() as int,
    ) == curr.take(m) {
        law_repeated_end_counts(prev, curr, m);
        assert(0 <= m - 1 < n);
        assert(overlap_count(prev, curr, m - 1) == m);
    }
    if let Some((prev_index, curr_index)) = indices {
        law_chunks_agree_at_joint(
            prev,
            curr,
            n,
            min_n_overlaps,
            prev_index as int,
            curr_index as int,
        );
    }
}

/// The first window begins with the first sample, each window holds `window_len` samples unless the
/// audio ends before, and each begins inside the audio. The next window begins a second before the
/// last one ends, or one sample later where windows are no longer than a second.
pub proof fn law_windows_follow(n_samples: usize, sample_rate: usize, window_len: usize, i: int)
    requires
        0 <= i < window_count(n_samples, sample_rate, window_len),
    ensures
        window_at(n_samples, sample_rate, window_len, 0).0 == 0,
        ({
            let window = window_at(n_samples, sample_rate, window_len, i);
            let next = window_at(n_samples, sample_rate, window_len, i + 1);
            &&& n_samples > 0 ==> 0 <= window.0 < n_samples
            &&& n_samples == 0 ==> window == (0int, 0int) && window_count(
                n_samples,
                sample_rate,
                window_len,
            ) == 1
            &&& window.1 - window.0 <= window_len
            &&& window.1 <= n_samples
            &&& window.1 - window.0 < window_len ==> window.1 == n_samples
            &&& window_len > sample_rate ==> next.0 == window.0 + window_len - sample_rate
            &&& window_len <= sample_rate ==> next.0 == window.0 + 1
            &&& i + 1 == window_count(n_samples, sample_rate, window_len) ==> next.0 >= n_samples
        }),
{
    let shift = window_shift(sample_rate, window_len);
    lemma_window_start(n_samples, sample_rate, window_len, i);
    assert((i + 1) * shift == i * shift + shift) by (nonlinear_arith);
    assert(0 * shift == 0) by (nonlinear_arith);
    if n_samples > 0 {
        let whole = (n_samples - 1) / shift;
        vstd::arithmetic::div_mod::lemma_fundamental_div_mod(n_samples - 1, shift);
        if i == whole {
            assert((whole + 1) * shift > n_samples - 1) by (nonlinear_arith)
                requires
                    n_samples - 1 == shift * whole + (n_samples - 1) % shift,
                    (n_samples - 1) % shift < shift,
            ;
        }
    } else {
        assert(i == 0);
    }
}

/// Row `i` of the decoder's input holds the tokens of beam `i`, from its first column on, and zeros
/// after them.
pub proof fn law_rows_hold_tokens(beams: Seq<Beam>, width: int, n: int, i: int, j: int)
    requires
        0 <= i < n,
        0 <= j < width,
        j < beams[i].seq.len() ==> beams[i].seq[j].token <= i32::MAX,
    ensures
        0 <= i * width + j < decoder_rows(beams, width, n).len(),
        j < beams[i].seq.len() ==> decoder_rows(beams, width, n)[i * width + j]
            == beams[i].seq[j].token,
        j >= beams[i].seq.len() ==> decoder_rows(beams, width, n)[i * width + j] == 0,
    decreases n,
{
    law_decoder_rows_len(beams, width, n - 1);
    law_decoder_rows_len(beams, width, n);
    let at = i * width + j;
    if i == n - 1 {
        assert(decoder_rows(beams, width, n)[at] == decoder_row(beams[i].seq, width)[j]);
        assert(at < n * width) by (nonlinear_arith)
            requires
                at == i * width + j,
                i == n - 1,
                j < width,
        ;
        assert(0 <= i * width) by (nonlinear_arith)
            requires
                0 <= i,
                0 <= width,
        ;
    } else {
        law_rows_hold_tokens(beams, width, n - 1, i, j);
        assert(decoder_rows(beams, width, n)[at] == decoder_rows(beams, width, n - 1)[at]);
    }
}

/// The decoder is shown each beam with its own log probability, in rows as long as the longest
/// beam. It is asked for twice as many tokens as beams go on, and may propose special tokens once a
/// beam holds more than five tokens.
pub proof fn law_decoder_sees_beams(
    input: DecoderInput,
    beams: Seq<Beam>,
    special_tokens_mask: Seq<bool>,
    vocab_size: usize,
    beam_size: usize,
    i: int,
)
    requires
        is_shown(input, beams, special_tokens_mask, vocab_size, beam_size),
        0 <= i < beams.len(),
    ensures
        input.rows@.len() == beams.len() * input.width,
        beams[i].seq.len() <= input.width,
        exists|k: int| 0 <= k < beams.len() && (#[trigger] beams[k]).seq.len() == input.width,
        input.log_probs@.len() == beams.len(),
        input.log_probs@[i] == beams[i].log_prob,
        input.special_tokens_mask@ == special_tokens_mask,
        beams[i].seq.len() > 5 ==> !input.mask_special_tokens,
        (forall|k: int| 0 <= k < beams.len() ==> (#[trigger] beams[k]).seq.len() <= 5)
            ==> input.mask_special_tokens,
        input.top_k == beam_size + beam_size,
{
    law_decoder_rows_len(beams, input.width as int, beams.len() as int);
    if input.width == 0 {
        assert(beams[i].seq.len() == input.width);
    }
}

/// For each beam the decoder is discouraged from saying exactly the text tokens that are among its
/// own last ten, where all text tokens are in the vocabulary.
pub proof fn law_said_is_discouraged(beams: Seq<Beam>, vocab_size: usize, i: int, token: usize)
    requires
        0 <= i < beams.len(),
        token < vocab_size,
        forall|l: int, k: int|
            0 <= l < beams.len() && 0 <= k < beams[l].seq.len() ==> (
            #[trigger] beams[l].seq[k]).token < 50257 ==> beams[l].seq[k].token < vocab_size,
    ensures
        is_discouraged(beams, vocab_size, i * vocab_size + token) <==> token < 50257 && exists|k: int|
            0 <= k < beams[i].seq.len() && k + 10 >= beams[i].seq.len() && (
            #[trigger] beams[i].seq[k]).token == token,
{
    let at = i * vocab_size + token;
    if is_discouraged(beams, vocab_size, at) {
        let (l, k) = choose|l: int, k: int| #[trigger]
            is_discouraged_by(beams, vocab_size, at, l, k);
        let said = beams[l].seq[k].token;
        assert(said < vocab_size);
        assert(l == i && said == token) by (nonlinear_arith)
            requires
                l * vocab_size + said == i * vocab_size + token,
                0 <= said < vocab_size,
                0 <= token < vocab_size,
        ;
    }
    if token < 50257 && exists|k: int|
        0 <= k < beams[i].seq.len() && k + 10 >= beams[i].seq.len() && (
        #[trigger] beams[i].seq[k]).token == token {
        let k = choose|k: int|
            0 <= k < beams[i].seq.len() && k + 10 >= beams[i].seq.len() && (
            #[trigger] beams[i].seq[k]).token == token;
        assert(is_discouraged_by(beams, vocab_size, at, i, k));
    }
}

/// Each beam gets its own proposals, in their order, each with the number, the log probability and
/// the total that the model gave.
pub proof fn law_proposals_reach_their_beam(
    conts: Seq<Vec<(BeamSearchToken, LogProb)>>,
    proposals: Seq<Proposal>,
    n_beams: int,
    k: int,
    i: int,
    j: int,
)
    requires
        are_continuations(conts, proposals, n_beams, k),
        0 <= i < n_beams,
        0 <= j < k,
        proposals[i * k + j].id >= 0,
    ensures
        conts.len() == n_beams,
        conts[i]@.len() == k,
        conts[i]@[j].0.token == proposals[i * k + j].id,
        conts[i]@[j].0._log_prob == proposals[i * k + j].log_prob,
        conts[i]@[j].1 == proposals[i * k + j].total,
{
    assert(conts[i]@ == Seq::new(k as nat, |l: int| continuation(proposals[i * k + l])));
}

/// The tokens of all windows come in the order of the windows, with nothing left out or added.
pub proof fn law_chunks_stay_whole(chunks: Seq<Vec<usize>>, n: int, i: int)
    requires
        0 <= i < n <= chunks.len(),
    ensures
        ({
            let start = joined(chunks, i).len();
            &&& joined(chunks, 0).len() == 0
            &&& joined(chunks, i + 1).len() == start + chunks[i]@.len()
            &&& start + chunks[i]@.len() <= joined(chunks, n).len()
            &&& joined(chunks, n).subrange(start as int, (start + chunks[i]@.len()) as int)
                == chunks[i]@
        }),
    decreases n,
{
    let start = joined(chunks, i).len() as int;
    let len = chunks[i]@.len();
    if i == n - 1 {
        assert(joined(chunks, n).subrange(start, start + len) =~= chunks[i]@);
    } else {
        law_chunks_stay_whole(chunks, n - 1, i);
        assert(joined(chunks, n).subrange(start, start + len) =~= joined(chunks, n - 1).subrange(
            start,
            start + len,
        ));
    }
}

/// Whether a sample was heard: it lies in samples that were listened to, and the tokens that were
/// heard in those are among `tokens`, one after the other.
pub open spec fn is_heard<H: Fn(usize, usize) -> Result<Vec<usize>, E>, E>(
    hear: H,
    sample: int,
    tokens: Seq<usize>,
) -> bool {
    exists|start: usize, end: usize, chunk: Vec<usize>, at: int|
        start <= sample < end && #[trigger] call_ensures(hear, (start, end), Ok(chunk)) && 0 <= at && at
            + chunk@.len() <= tokens.len() && #[trigger] tokens.subrange(at, at + chunk@.len())
            == chunk@
}

/// A waveform that was transcribed was heard to its end: each of its samples was listened to, and
/// what was heard of it is among the tokens; the text spells out all of the tokens.
pub proof fn law_everything_is_heard<
    H: Fn(usize, usize) -> Result<Vec<usize>, E>,
    D: Fn(&Vec<usize>) -> Result<String, E>,
    E,
>(
    n_samples: usize,
    sample_rate: usize,
    window_len: usize,
    hear: H,
    decode: D,
    text: String,
    tokens: Vec<usize>,
    sample: int,
)
    requires
        is_transcript(
            n_samples,
            sample_rate,
            window_len,
            hear,
            decode,
            Ok::<(String, Vec<usize>), E>((text, tokens)),
        ),
        window_len > 0,
        0 <= sample < n_samples,
    ensures
        call_ensures(decode, (&tokens,), Ok::<String, E>(text)),
        is_heard(hear, sample, tokens@),
{
    let chunks = choose|chunks: Seq<Vec<usize>>|
        {
            &&& chunks.len() == window_count(n_samples, sample_rate, window_len)
            &&& #[trigger] all_heard(hear, n_samples, sample_rate, window_len, chunks)
            &&& tokens@ == joined(chunks, chunks.len() as int)
        };
    law_windows_cover(n_samples, sample_rate, window_len, sample);
    let i = choose|i: int|
        0 <= i < window_count(n_samples, sample_rate, window_len) && (#[trigger] window_at(
            n_samples,
            sample_rate,
            window_len,
            i,
        )).0 <= sample < window_at(n_samples, sample_rate, window_len, i).1;
    let window = window_at(n_samples, sample_rate, window_len, i);
    lemma_window_start(n_samples, sample_rate, window_len, i);
    let (start, end) = (window.0 as usize, window.1 as usize);
    let chunk = chunks[i];
    assert(hears(hear, n_samples, sample_rate, window_len, i, Ok(chunk)));
    law_chunks_stay_whole(chunks, chunks.len() as int, i);
    let at = joined(chunks, i).len() as int;
    assert(start <= sample < end);
    assert(call_ensures(hear, (start, end), Ok::<Vec<usize>, E>(chunk)));
    assert(tokens@.subrange(at, at + chunk@.len()) == chunk@);
}

/// A transcription that failed tells an error of one of the windows, or one of spelling out what
/// was heard before.
pub proof fn law_failure_has_a_cause<
    H: Fn(usize, usize) -> Result<Vec<usize>, E>,
    D: Fn(&Vec<usize>) -> Result<String, E>,
    E,
>(
    n_samples: usize,
    sample_rate: usize,
    window_len: usize,
    hear: H,
    decode: D,
    error: E,
)
    requires
        is_transcript(
            n_samples,
            sample_rate,
            window_len,
            hear,
            decode,
            Err::<(String, Vec<usize>), E>(error),
        ),
    ensures
        (exists|start: usize, end: usize| #[trigger]
            call_ensures(hear, (start, end), Err::<Vec<usize>, E>(error))) || (exists|
            tokens: Vec<usize>,
        | #[trigger]
            call_ensures(decode, (&tokens,), Err::<String, E>(error))),
{
    let chunks = choose|chunks: Seq<Vec<usize>>|
        #![trigger all_heard(hear, n_samples, sample_rate, window_len, chunks)]
        {
            &&& chunks.len() <= window_count(n_samples, sample_rate, window_len)
            &&& all_heard(hear, n_samples, sample_rate, window_len, chunks)
            &&& {
                ||| chunks.len() < window_count(n_samples, sample_rate, window_len) && hears(
                    hear,
                    n_samples,
                    sample_rate,
                    window_len,
                    chunks.len() as int,
                    Err(error),
                )
                ||| chunks.len() > 0 && fails_to_decode(
                    decode,
                    joined(chunks, chunks.len() as int),
                    error,
                )
            }
        };
    if hears(hear, n_samples, sample_rate, window_len, chunks.len() as int, Err(error)) {
        let window = window_at(n_samples, sample_rate, window_len, chunks.len() as int);
        assert(call_ensures(
            hear,
            (window.0 as usize, window.1 as usize),
            Err::<Vec<usize>, E>(error),
        ));
    } else {
        let given = choose|given: Vec<usize>|
            given@ == joined(chunks, chunks.len() as int) && #[trigger] call_ensures(
                decode,
                (&given,),
                Err(error),
            );
        assert(call_ensures(decode, (&given,), Err::<String, E>(error)));
    }
}

/// The text of a window spells out tokens that begin with those that the search was given, and add
/// at most twelve.
pub proof fn law_window_text<
    N: Fn(&Vec<BeamNode<BeamSearchToken>>) -> Continuations,
    D: Fn(&Vec<usize>) -> Result<String, E>,
    E,
>(
    next: N,
    decode: D,
    initial_tokens: Seq<usize>,
    end_token: usize,
    text: String,
    tokens: Vec<usize>,
)
    requires
        is_window_text(
            next,
            decode,
            initial_tokens,
            end_token,
            Ok::<(String, Vec<usize>), E>((text, tokens)),
        ),
    ensures
        call_ensures(decode, (&tokens,), Ok::<String, E>(text)),
        tokens@.len() > 0 ==> initial_tokens.len() <= tokens@.len() <= initial_tokens.len() + 12
            && tokens@.take(initial_tokens.len() as int) == initial_tokens,
{
    if tokens@.len() > 0 {
        law_transcript_continues(next, initial_tokens, end_token, tokens@);
    }
}

} // verus!
