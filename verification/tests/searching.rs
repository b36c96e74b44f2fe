use tiny_player::whisper_burn::beam::{
    _get_top_elements, beam_search, beam_search_step, BeamNode, Continuations,
};
use tiny_player::whisper_burn::transcribe::{
    _find_chunk_overlap, beamsearch_is_finished, beamsearch_next, deal_proposals, flatten_beams,
    initial_beam, masks_special_tokens, mel_frames_kept, mels_to_text, penalty_map, rank_of_bits,
    special_tokens_mask, top_k, waveform_to_text, waveform_windows, BeamSearchToken, DecoderInput, LogProb, Proposal,
    FIVE_RANK, TEXT_TOKENS,
};

fn prob(rank: i64) -> LogProb {
    LogProb { rank, margin_rank: rank + 5 }
}

fn tok(token: usize) -> BeamSearchToken {
    BeamSearchToken { token, _log_prob: prob(0) }
}

fn node(tokens: &[usize], rank: i64) -> BeamNode<BeamSearchToken> {
    BeamNode { seq: tokens.iter().map(|t| tok(*t)).collect(), log_prob: prob(rank) }
}

fn tokens_of(node: &BeamNode<BeamSearchToken>) -> Vec<usize> {
    node.seq.iter().map(|t| t.token).collect()
}

const END: usize = 50257;

fn is_finished(tokens: &[usize]) -> bool {
    let toks: Vec<BeamSearchToken> = tokens.iter().map(|t| tok(*t)).collect();
    beamsearch_is_finished(&toks, END)
}

fn is_done(toks: &[BeamSearchToken]) -> bool {
    beamsearch_is_finished(toks, END)
}

#[test]
fn ranks_order_numbers() {
    let numbers = [f64::NEG_INFINITY, -1e300, -2.5, -1.0, -1e-310, 0.0, 1e-310, 1.0, 5.0, 1e300];
    for pair in numbers.windows(2) {
        assert!(rank_of_bits(pair[0].to_bits()) < rank_of_bits(pair[1].to_bits()));
    }
    assert_eq!(rank_of_bits((-0.0_f64).to_bits()), rank_of_bits(0.0_f64.to_bits()));
    assert_eq!(rank_of_bits(5.0_f64.to_bits()), FIVE_RANK);
}

#[test]
fn sequences_end_at_the_end_token() {
    assert!(!is_finished(&[]));
    assert!(!is_finished(&[1]));
    assert!(is_finished(&[1, END]));
    assert!(!is_finished(&[END, 1]));
}

#[test]
fn sequences_end_when_they_are_long() {
    let long: Vec<usize> = (0..25).collect();
    assert!(is_finished(&long));
    assert!(!is_finished(&long[..24]));
}

#[test]
fn sequences_end_when_they_repeat() {
    assert!(is_finished(&[1, 2, 3, 9, 1, 2, 3]));
    assert!(!is_finished(&[1, 2, 3, 1, 2, 3]));
    assert!(is_finished(&[4, 1, 2, 3, 1, 2, 3]));
    assert!(!is_finished(&[1, 2, 3, 4, 1, 2, 5]));
}

#[test]
fn sequences_end_when_a_text_token_stutters() {
    assert!(is_finished(&[7, 7, 7]));
    assert!(!is_finished(&[7, 7]));
    let special = TEXT_TOKENS + 1;
    assert!(!is_finished(&[special, special, special]));
}

#[test]
fn the_best_scores_are_picked_worst_first() {
    assert_eq!(_get_top_elements(&[5, 7, 6], 2), vec![2, 1]);
    assert_eq!(_get_top_elements(&[5, 7, 6], 9), vec![0, 2, 1]);
    assert_eq!(_get_top_elements(&[4, 4, 4], 2), vec![1, 0]);
    assert_eq!(_get_top_elements(&[], 0), Vec::<usize>::new());
}

#[test]
fn a_step_grows_each_beam() {
    let beams = vec![node(&[1], 0), node(&[2], 0)];
    let continuations: Continuations = vec![
        vec![(tok(3), prob(-4)), (tok(END), prob(-1))],
        vec![(tok(4), prob(-2)), (tok(5), prob(-3))],
    ];
    let (active, finished) = beam_search_step(&beams, &continuations, &is_done, 2);
    assert_eq!(active.iter().map(tokens_of).collect::<Vec<_>>(), vec![vec![2, 5], vec![2, 4]]);
    assert_eq!(active[1].log_prob.rank, -2);
    assert_eq!(finished.iter().map(tokens_of).collect::<Vec<_>>(), vec![vec![1, END]]);
}

#[test]
fn beams_without_proposals_are_lost() {
    let beams = vec![node(&[1], 0), node(&[2], 0)];
    let (active, finished) = beam_search_step(&beams, &vec![vec![(tok(3), prob(-4))]], &is_done, 4);
    assert_eq!(active.iter().map(tokens_of).collect::<Vec<_>>(), vec![vec![1, 3]]);
    assert!(finished.is_empty());
}

#[test]
fn the_best_complete_beam_is_found() {
    let model = |beams: &Vec<BeamNode<BeamSearchToken>>| -> Continuations {
        beams
            .iter()
            .map(|beam| {
                let n = beam.seq.len();
                let rank = beam.log_prob.rank;
                vec![(tok(100 + n), prob(rank - 1)), (tok(END), prob(rank - 10 + n as i64))]
            })
            .collect()
    };
    let found = beam_search(vec![node(&[1], 0)], model, is_done, 1, 3);
    let tokens: Vec<usize> = found.iter().map(|t| t.token).collect();
    assert_eq!(tokens, vec![1, END]);
}

#[test]
fn a_search_without_complete_beams_gives_the_best_growing_one() {
    let model = |beams: &Vec<BeamNode<BeamSearchToken>>| -> Continuations {
        beams
            .iter()
            .map(|beam| vec![(tok(200 + beam.seq.len()), prob(beam.log_prob.rank - 1))])
            .collect()
    };
    let found = beam_search(vec![node(&[1], 0), node(&[2], 0)], model, is_done, 2, 2);
    assert_eq!(found.iter().map(|t| t.token).collect::<Vec<_>>(), vec![2, 201, 202]);
    assert!(beam_search(vec![], model, is_done, 2, 2).is_empty());
    let once = beam_search(vec![node(&[1], 0), node(&[2], 0)], model, is_done, 2, 1);
    assert_eq!(once.iter().map(|t| t.token).collect::<Vec<_>>(), vec![1, 201]);
    let unchanged = beam_search(vec![node(&[1], 3), node(&[2], 3)], model, is_done, 2, 0);
    assert_eq!(unchanged.iter().map(|t| t.token).collect::<Vec<_>>(), vec![2]);
}

#[test]
fn a_search_without_depth_keeps_the_best_beam_it_has() {
    let model = |_: &Vec<BeamNode<BeamSearchToken>>| -> Continuations { panic!("not asked") };
    let given = vec![node(&[1], 3), node(&[2], 7), node(&[3], 7), node(&[4], 5)];
    let found = beam_search(given, model, is_done, 0, 0);
    assert_eq!(found.iter().map(|t| t.token).collect::<Vec<_>>(), vec![3]);
    assert!(beam_search(vec![], model, is_done, 0, 0).is_empty());
}

#[test]
fn a_search_without_width_ends_where_nothing_grows() {
    let model = |beams: &Vec<BeamNode<BeamSearchToken>>| -> Continuations {
        beams.iter().map(|_| vec![(tok(END), prob(-1))]).collect()
    };
    assert!(beam_search(vec![], model, is_done, 0, 3).is_empty());
    let found = beam_search(vec![node(&[1], 0)], model, is_done, 0, 3);
    assert_eq!(found.iter().map(|t| t.token).collect::<Vec<_>>(), vec![1, END]);
}

#[test]
fn a_complete_beam_is_found_before_a_better_growing_one() {
    let model = |beams: &Vec<BeamNode<BeamSearchToken>>| -> Continuations {
        beams
            .iter()
            .map(|beam| {
                let n = beam.seq.len();
                vec![(tok(10 + n), prob(0)), (tok(END), prob(-1 - n as i64))]
            })
            .collect()
    };
    let found = beam_search(vec![node(&[1], 0)], model, is_done, 1, 3);
    assert_eq!(found.iter().map(|t| t.token).collect::<Vec<_>>(), vec![1, END]);
}

#[test]
fn the_caller_says_which_beams_are_complete() {
    let model = |beams: &Vec<BeamNode<BeamSearchToken>>| -> Continuations {
        beams.iter().map(|beam| vec![(tok(beam.seq.len()), prob(-1))]).collect()
    };
    let three = |toks: &[BeamSearchToken]| toks.len() == 3;
    let found = beam_search(vec![node(&[9], 0)], model, three, 1, 8);
    assert_eq!(found.iter().map(|t| t.token).collect::<Vec<_>>(), vec![9, 1, 2]);
    let conts: Continuations = vec![vec![(tok(5), prob(-1)), (tok(6), prob(-2))]];
    let five = |toks: &[BeamSearchToken]| toks[toks.len() - 1].token == 5;
    let (active, finished) = beam_search_step(&vec![node(&[9], 0)], &conts, &five, 3);
    assert_eq!(active.iter().map(tokens_of).collect::<Vec<_>>(), vec![vec![9, 6]]);
    assert_eq!(finished.iter().map(tokens_of).collect::<Vec<_>>(), vec![vec![9, 5]]);
    let all = |_: &[BeamSearchToken]| true;
    let (active, finished) = beam_search_step(&vec![node(&[9], 0)], &conts, &all, 0);
    assert_eq!((active.len(), finished.len()), (0, 2));
}

#[test]
fn a_search_stops_when_a_complete_beam_leads() {
    let calls = std::cell::Cell::new(0);
    let model = |beams: &Vec<BeamNode<BeamSearchToken>>| -> Continuations {
        calls.set(calls.get() + 1);
        beams.iter().map(|_| vec![(tok(9), prob(-100)), (tok(END), prob(-1))]).collect()
    };
    let found = beam_search(vec![node(&[1], 0)], model, is_done, 1, 12);
    assert_eq!(found.iter().map(|t| t.token).collect::<Vec<_>>(), vec![1, END]);
    assert_eq!(calls.get(), 1);
}

#[test]
fn chunks_are_joined_where_most_tokens_agree() {
    assert_eq!(_find_chunk_overlap(&[1, 2, 3, 4], &[3, 4, 5], 40, 2), Some((2, 0)));
    assert_eq!(_find_chunk_overlap(&[1, 2, 3, 4], &[3, 4, 5], 40, 3), None);
    assert_eq!(_find_chunk_overlap(&[1, 2, 3, 4], &[3, 4, 5], 1, 1), None);
    assert_eq!(_find_chunk_overlap(&[1, 9, 3], &[7, 9, 3], 40, 2), Some((1, 1)));
    assert_eq!(_find_chunk_overlap(&[1], &[2], 40, 0), Some((0, 0)));
    assert_eq!(_find_chunk_overlap(&[], &[2], 40, 1), None);
}

#[test]
fn windows_overlap_by_a_second() {
    assert_eq!(waveform_windows(25, 4, 10), vec![(0, 10), (6, 16), (12, 22), (18, 25), (24, 25)]);
    assert_eq!(waveform_windows(0, 4, 10), vec![(0, 0)]);
    assert_eq!(waveform_windows(3, 4, 10), vec![(0, 3)]);
    assert_eq!(waveform_windows(3, 4, 2), vec![(0, 2), (1, 3), (2, 3)]);
    assert_eq!(waveform_windows(5, 4, usize::MAX), vec![(0, 5)]);
}

#[test]
fn every_sample_is_in_a_window() {
    for (n, rate, window) in [(1, 1, 1), (100, 16, 40), (100, 50, 40), (7, 3, 100)] {
        let windows = waveform_windows(n, rate, window);
        for sample in 0..n {
            assert!(windows.iter().any(|(start, end)| *start <= sample && sample < *end));
        }
    }
}

#[test]
fn spectrograms_are_clipped_to_the_context() {
    assert_eq!(mel_frames_kept(100, 1500, 200), 100);
    assert_eq!(mel_frames_kept(1300, 1500, 200), 1300);
    assert_eq!(mel_frames_kept(1301, 1500, 200), 1300);
    assert_eq!(mel_frames_kept(5, 200, 200), 0);
}

#[test]
fn beams_are_laid_out_in_rows() {
    let (width, cells) = flatten_beams(&vec![node(&[1, 2, 3], 0), node(&[4], 0)]);
    assert_eq!(width, 3);
    assert_eq!(cells, vec![1, 2, 3, 4, 0, 0]);
    assert_eq!(flatten_beams(&vec![]), (0, vec![]));
}

#[test]
fn recent_text_tokens_are_discouraged() {
    let tokens: Vec<usize> = (0..12).collect();
    let map = penalty_map(&vec![node(&tokens, 0), node(&[3, 3], 0)], 20);
    let marked: Vec<usize> = (0..40).filter(|at| map[*at]).collect();
    assert_eq!(marked, vec![2, 3, 4, 5, 6, 7, 8, 9, 10, 11, 23]);
    let special = penalty_map(&vec![node(&[TEXT_TOKENS, 1], 0)], 4);
    assert_eq!(special, vec![false, true, false, false]);
}

#[test]
fn special_tokens_are_masked_near_the_start() {
    assert!(masks_special_tokens(5));
    assert!(!masks_special_tokens(6));
    assert_eq!(top_k(3), 6);
    let is_special = vec![false, true, true, false];
    assert_eq!(special_tokens_mask(&is_special, 3), vec![false, true, true]);
    assert_eq!(special_tokens_mask(&is_special, 5), vec![false, true, true, false, false]);
}

#[test]
fn proposals_are_dealt_out_to_the_beams() {
    let proposal = |id, rank| Proposal { id, log_prob: prob(rank), total: prob(rank * 2) };
    let proposals = [proposal(5, -1), proposal(6, -2), proposal(7, -3), proposal(8, -4)];
    let conts = deal_proposals(2, &proposals, 1);
    assert_eq!(conts.len(), 2);
    assert_eq!(conts[1][0].0, BeamSearchToken { token: 7, _log_prob: prob(-3) });
    assert_eq!(conts[1][0].1, prob(-6));
    assert_eq!(conts[0].iter().map(|c| c.0.token).collect::<Vec<_>>(), vec![5, 6]);
}

#[test]
fn the_model_is_shown_the_beams() {
    let beams = vec![node(&[1, 2], 0), node(&[3], -7)];
    let forward = |input: &DecoderInput| -> Vec<Proposal> {
        assert_eq!((input.width, input.top_k, input.mask_special_tokens), (2, 2, true));
        assert_eq!(input.rows, vec![1, 2, 3, 0]);
        assert_eq!(input.log_probs, vec![prob(0), prob(-7)]);
        assert_eq!(input.special_tokens_mask, vec![false, true, false, false]);
        let discouraged = vec![false, true, true, false, false, false, false, true];
        assert_eq!(input.discouraged, discouraged);
        (0..5).map(|id| Proposal { id, log_prob: prob(-1), total: prob(-id as i64) }).collect()
    };
    let mask = special_tokens_mask(&vec![false, true], 4);
    let conts = beamsearch_next(&beams, &mask, 4, 1, forward);
    let tokens: Vec<Vec<usize>> =
        conts.iter().map(|row| row.iter().map(|c| c.0.token).collect()).collect();
    assert_eq!(tokens, vec![vec![0, 1], vec![2, 3]]);
    assert_eq!(conts[1][1].1, prob(-3));
}

#[test]
fn searches_start_from_certain_tokens() {
    let start = initial_beam(&vec![50258, 50259]);
    assert_eq!(tokens_of(&start), vec![50258, 50259]);
    assert_eq!(start.log_prob, LogProb { rank: 0, margin_rank: FIVE_RANK });
}

#[test]
fn a_window_is_transcribed_to_its_end_token() {
    let model = |beams: &Vec<BeamNode<BeamSearchToken>>| -> Continuations {
        beams
            .iter()
            .map(|beam| {
                let next = if beam.seq.len() < 4 { 10 + beam.seq.len() } else { END };
                vec![(tok(next), prob(beam.log_prob.rank - 1))]
            })
            .collect()
    };
    let decode = |tokens: &Vec<usize>| -> Result<String, String> { Ok(format!("{:?}", tokens)) };
    assert_eq!(
        mels_to_text(model, decode, &vec![1, 2], END),
        Ok(("[1, 2, 12, 13, 50257]".to_string(), vec![1, 2, 12, 13, END]))
    );
    let refuse = |tokens: &Vec<usize>| -> Result<String, usize> { Err(tokens.len()) };
    assert_eq!(mels_to_text(model, refuse, &vec![1, 2], END), Err(5));
}

#[test]
fn a_search_adds_twelve_tokens_at_most() {
    let model = |beams: &Vec<BeamNode<BeamSearchToken>>| -> Continuations {
        beams.iter().map(|beam| vec![(tok(10 + beam.seq.len()), prob(0))]).collect()
    };
    let count = |tokens: &Vec<usize>| -> Result<String, String> { Ok(tokens.len().to_string()) };
    match mels_to_text(model, count, &vec![1], END) {
        Ok((text, tokens)) => assert_eq!((text, tokens.len()), ("13".to_string(), 13)),
        Err(_) => panic!("the tokens can be spelt out"),
    }
}

#[test]
fn windows_are_transcribed_one_after_the_other() {
    let hear = |start: usize, end: usize| -> Result<Vec<usize>, String> { Ok(vec![start, end]) };
    let decode = |tokens: &Vec<usize>| -> Result<String, String> { Ok(format!("{:?}", tokens)) };
    assert_eq!(
        waveform_to_text(16, 4, 10, hear, decode),
        Ok(("[0, 10, 6, 16, 12, 16]".to_string(), vec![0, 10, 6, 16, 12, 16]))
    );
}

#[test]
fn errors_end_a_transcription() {
    let deaf = |start: usize, _end: usize| -> Result<Vec<usize>, String> {
        if start > 0 { Err("deaf".to_string()) } else { Ok(vec![1]) }
    };
    let spell = |_tokens: &Vec<usize>| -> Result<String, String> { Ok(String::new()) };
    assert_eq!(waveform_to_text(16, 4, 10, deaf, spell), Err("deaf".to_string()));
    let hear = |_start: usize, _end: usize| -> Result<Vec<usize>, String> { Ok(vec![1]) };
    let mute = |_tokens: &Vec<usize>| -> Result<String, String> { Err("mute".to_string()) };
    assert_eq!(waveform_to_text(16, 4, 10, hear, mute), Err("mute".to_string()));
}
