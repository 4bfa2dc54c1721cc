use nemotron_mlx::model::{GreedyRnnt, TimedToken, offset_frames};

#[test]
fn greedy_control_advances_only_on_blank_and_caps_symbols() {
    let mut calls = Vec::new();
    let tokens = GreedyRnnt::decode_with(3, 9, 2, |frame, symbol| {
        calls.push((frame, symbol));
        match (frame, symbol) {
            (0, 0) => 4,
            (0, 1) => 9,
            (1, _) => 5,
            (2, _) => 9,
            _ => unreachable!(),
        }
    });

    // Frame 0 emits one token then blanks out (advances to frame 1). Frame 1
    // caps at two symbols without ever seeing blank, so both share frame 1.
    // Frame 2 blanks immediately and emits nothing.
    assert_eq!(
        tokens,
        vec![
            TimedToken { id: 4, frame: 0 },
            TimedToken { id: 5, frame: 1 },
            TimedToken { id: 5, frame: 1 },
        ]
    );
    assert_eq!(calls, vec![(0, 0), (0, 1), (1, 0), (1, 1), (2, 0)]);
}

#[test]
fn zero_symbol_cap_never_scores() {
    let mut calls = 0;
    let tokens = GreedyRnnt::decode_with(4, 0, 0, |_, _| {
        calls += 1;
        1
    });
    assert!(tokens.is_empty());
    assert_eq!(calls, 0);
}

#[test]
fn window_tokens_move_to_utterance_frames() {
    let tokens = vec![TimedToken { id: 7, frame: 0 }, TimedToken { id: 8, frame: 3 }];
    assert_eq!(
        offset_frames(tokens, 40),
        vec![TimedToken { id: 7, frame: 40 }, TimedToken { id: 8, frame: 43 }]
    );
}

#[test]
fn a_scorer_that_never_blanks_fills_every_frame_to_the_cap() {
    let tokens = GreedyRnnt::decode_with(4, 0, 3, |frame, symbol| (10 * frame + symbol + 1) as u32);
    assert_eq!(tokens.len(), 12);
    for frame in 0..4u64 {
        assert_eq!(tokens.iter().filter(|token| token.frame == frame).count(), 3);
    }
    assert!(tokens.windows(2).all(|pair| pair[0].frame <= pair[1].frame));
}
