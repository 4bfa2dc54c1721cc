//! Greedy RNNT search control, separated from neural scoring.
use vstd::prelude::*;

use super::encoder::ModelError;

verus! {

/// One non-blank RNNT token and the encoder frame that emitted it.
///
/// `frame` is the output-frame index (80 ms per frame) and approximates the
/// token's start time.
#[derive(Debug, Clone, Copy, PartialEq, Eq, Structural)]
pub struct TimedToken {
    pub id: u32,
    pub frame: u64,
}

/// Where greedy search stands after some scorer answers: the frame being
/// decoded, the symbols already emitted on it, and the tokens so far.
pub struct GreedyProgress {
    pub frame: nat,
    pub symbol: nat,
    pub tokens: Seq<TimedToken>,
}

/// The effect of one scorer answer: blank, or the per-frame symbol cap,
/// moves on to the next frame; any other answer is emitted on this frame.
pub open spec fn greedy_step(state: GreedyProgress, answer: u32, blank: u32, max_symbols: nat) -> GreedyProgress {
    if answer == blank {
        GreedyProgress { frame: state.frame + 1, symbol: 0, tokens: state.tokens }
    } else {
        let tokens = state.tokens.push(TimedToken { id: answer, frame: state.frame as u64 });
        if state.symbol + 1 >= max_symbols {
            GreedyProgress { frame: state.frame + 1, symbol: 0, tokens }
        } else {
            GreedyProgress { frame: state.frame, symbol: state.symbol + 1, tokens }
        }
    }
}

/// Greedy search after the scorer gave `answers`, in call order.
pub open spec fn greedy_run(answers: Seq<u32>, blank: u32, max_symbols: nat) -> GreedyProgress
    decreases answers.len(),
{
    if answers.len() == 0 {
        GreedyProgress { frame: 0, symbol: 0, tokens: Seq::empty() }
    } else {
        greedy_step(greedy_run(answers.drop_last(), blank, max_symbols), answers.last(), blank, max_symbols)
    }
}

/// `answers` is a complete search over `frame_count` frames in which the
/// `k`-th answer is what `score` may return for the `(frame, symbol)` that
/// search asked about at that point.
pub open spec fn greedy_answers_complete<F: FnMut(usize, usize) -> u32>(
    score: F,
    answers: Seq<u32>,
    frame_count: nat,
    blank: u32,
    max_symbols: nat,
) -> bool {
    &&& greedy_run(answers, blank, max_symbols).frame == frame_count
    &&& forall|k: int| 0 <= k < answers.len() ==> {
        let at = #[trigger] greedy_run(answers.take(k), blank, max_symbols);
        &&& at.frame < frame_count
        &&& call_ensures(score, (at.frame as usize, at.symbol as usize), answers[k])
    }
}

/// RNNT greedy-search state machine, separated from neural scoring for
/// deterministic testing.
pub struct GreedyRnnt;

impl GreedyRnnt {
    /// Scores each encoder frame until blank or `max_symbols_per_step`
    /// emissions; every non-blank answer becomes a token on its frame.
    pub fn decode_with(
        frame_count: usize,
        blank_token_id: u32,
        max_symbols_per_step: usize,
        mut score: impl FnMut(usize, usize) -> u32,
    ) -> (r: Vec<TimedToken>)
        requires
            forall|frame: usize, symbol: usize|
                frame < frame_count && symbol < max_symbols_per_step ==> call_requires(score, (frame, symbol)),
        ensures
            max_symbols_per_step == 0 || frame_count == 0 ==> r@ == Seq::<TimedToken>::empty(),
            max_symbols_per_step > 0 ==> exists|answers: Seq<u32>|
                greedy_answers_complete(score, answers, frame_count as nat, blank_token_id, max_symbols_per_step as nat)
                    && r@ == #[trigger] greedy_run(answers, blank_token_id, max_symbols_per_step as nat).tokens,
    {
        let ghost score0 = score;
        let ghost mut answers: Seq<u32> = Seq::empty();
        let mut output: Vec<TimedToken> = Vec::new();
        if max_symbols_per_step == 0 {
            return output;
        }
        let ghost max = max_symbols_per_step as nat;
        let mut frame: usize = 0;
        while frame < frame_count
            invariant
                score == score0,
                max == max_symbols_per_step as nat,
                max_symbols_per_step > 0,
                frame <= frame_count,
                forall|f: usize, s: usize|
                    f < frame_count && s < max_symbols_per_step ==> call_requires(score, (f, s)),
                greedy_run(answers, blank_token_id, max).frame == frame,
                greedy_run(answers, blank_token_id, max).symbol == 0,
                greedy_run(answers, blank_token_id, max).tokens == output@,
                forall|k: int| 0 <= k < answers.len() ==> {
                    let at = #[trigger] greedy_run(answers.take(k), blank_token_id, max);
                    &&& at.frame < frame_count
                    &&& call_ensures(score0, (at.frame as usize, at.symbol as usize), answers[k])
                },
            decreases frame_count - frame,
        {
            let mut symbol: usize = 0;
            while symbol < max_symbols_per_step
                invariant_except_break
                    symbol < max_symbols_per_step ==> greedy_run(answers, blank_token_id, max).frame == frame
                        && greedy_run(answers, blank_token_id, max).symbol == symbol,
                    symbol == max_symbols_per_step ==> greedy_run(answers, blank_token_id, max).frame == frame + 1
                        && greedy_run(answers, blank_token_id, max).symbol == 0,
                invariant
                    score == score0,
                    max == max_symbols_per_step as nat,
                    max_symbols_per_step > 0,
                    frame < frame_count,
                    symbol <= max_symbols_per_step,
                    forall|f: usize, s: usize|
                        f < frame_count && s < max_symbols_per_step ==> call_requires(score, (f, s)),
                    greedy_run(answers, blank_token_id, max).tokens == output@,
                    forall|k: int| 0 <= k < answers.len() ==> {
                        let at = #[trigger] greedy_run(answers.take(k), blank_token_id, max);
                        &&& at.frame < frame_count
                        &&& call_ensures(score0, (at.frame as usize, at.symbol as usize), answers[k])
                    },
                ensures
                    greedy_run(answers, blank_token_id, max).frame == frame + 1,
                    greedy_run(answers, blank_token_id, max).symbol == 0,
                decreases max_symbols_per_step - symbol,
            {
                let token = score(frame, symbol);
                let ghost before = answers;
                proof {
                    answers = answers.push(token);
                    assert(answers.drop_last() =~= before);
                    assert(answers.take(before.len() as int) =~= before);
                    assert forall|k: int| 0 <= k < answers.len() implies {
                        let at = #[trigger] greedy_run(answers.take(k), blank_token_id, max);
                        &&& at.frame < frame_count
                        &&& call_ensures(score0, (at.frame as usize, at.symbol as usize), answers[k])
                    } by {
                        if k < before.len() {
                            assert(answers.take(k) =~= before.take(k));
                        }
                    }
                }
                if token == blank_token_id {
                    break;
                }
                output.push(TimedToken { id: token, frame: frame as u64 });
                symbol += 1;
            }
            frame += 1;
        }
        proof {
            assert(greedy_answers_complete(score0, answers, frame_count as nat, blank_token_id, max));
        }
        output
    }
}

/// Greedy search emits tokens in frame order, never past the frame it is on.
pub proof fn lemma_greedy_tokens_in_frame_order(answers: Seq<u32>, blank: u32, max_symbols: nat)
    requires
        greedy_run(answers, blank, max_symbols).frame <= u64::MAX,
    ensures
        ({
            let run = greedy_run(answers, blank, max_symbols);
            &&& forall|i: int, j: int| 0 <= i <= j < run.tokens.len() ==> #[trigger] run.tokens[i].frame
                <= #[trigger] run.tokens[j].frame
            &&& forall|i: int| 0 <= i < run.tokens.len() ==> #[trigger] run.tokens[i].frame <= run.frame
        }),
    decreases answers.len(),
{
    if answers.len() > 0 {
        let before = greedy_run(answers.drop_last(), blank, max_symbols);
        lemma_greedy_run_frame_grows(answers, blank, max_symbols);
        lemma_greedy_tokens_in_frame_order(answers.drop_last(), blank, max_symbols);
    }
}

/// One more answer never moves greedy search back a frame.
proof fn lemma_greedy_run_frame_grows(answers: Seq<u32>, blank: u32, max_symbols: nat)
    requires
        answers.len() > 0,
    ensures
        greedy_run(answers.drop_last(), blank, max_symbols).frame <= greedy_run(answers, blank, max_symbols).frame,
{
}

/// What the prediction network does with `token`: `Ok(true)` reuses its
/// cached output, which a blank does once the network has stepped, and
/// `Ok(false)` steps every layer; a state with another number of layers than
/// the network is refused.
pub fn prediction_reuses_output(
    state_layers: usize,
    network_layers: usize,
    initialized: bool,
    token: u32,
    blank: u32,
) -> (r: Result<bool, ModelError>)
    ensures
        state_layers != network_layers ==> (r matches Err(e) && e is InvalidShape),
        state_layers == network_layers ==> r == Ok::<bool, ModelError>(initialized && token == blank),
{
    if state_layers != network_layers {
        return Err(ModelError::InvalidShape("prediction state has incorrect layer count".to_owned()));
    }
    Ok(initialized && token == blank)
}

/// How many of `tokens` were emitted on frame `frame`.
pub open spec fn tokens_on_frame(tokens: Seq<TimedToken>, frame: u64) -> nat
    decreases tokens.len(),
{
    if tokens.len() == 0 {
        0
    } else {
        tokens_on_frame(tokens.drop_last(), frame) + if tokens.last().frame == frame { 1nat } else { 0nat }
    }
}

/// Greedy search emits at most `max_symbols` tokens on any one frame.
pub proof fn lemma_greedy_symbols_per_frame(answers: Seq<u32>, blank: u32, max_symbols: nat, frame: u64)
    requires
        max_symbols > 0,
        greedy_run(answers, blank, max_symbols).frame <= u64::MAX,
    ensures
        tokens_on_frame(greedy_run(answers, blank, max_symbols).tokens, frame) <= max_symbols,
{
    lemma_greedy_symbol_counts(answers, blank, max_symbols);
}

/// Greedy search's symbol counter is the number of tokens on the current
/// frame, below the cap, and no frame holds more than the cap or lies ahead.
proof fn lemma_greedy_symbol_counts(answers: Seq<u32>, blank: u32, max_symbols: nat)
    requires
        max_symbols > 0,
        greedy_run(answers, blank, max_symbols).frame <= u64::MAX,
    ensures
        ({
            let run = greedy_run(answers, blank, max_symbols);
            &&& run.symbol < max_symbols
            &&& tokens_on_frame(run.tokens, run.frame as u64) == run.symbol
            &&& forall|f: u64| #[trigger] tokens_on_frame(run.tokens, f) <= max_symbols
            &&& forall|f: u64| f > run.frame ==> #[trigger] tokens_on_frame(run.tokens, f) == 0
        }),
    decreases answers.len(),
{
    if answers.len() > 0 {
        lemma_greedy_run_frame_grows(answers, blank, max_symbols);
        lemma_greedy_symbol_counts(answers.drop_last(), blank, max_symbols);
        let before = greedy_run(answers.drop_last(), blank, max_symbols);
        let answer = answers.last();
        if answer != blank {
            let token = TimedToken { id: answer, frame: before.frame as u64 };
            let tokens = before.tokens.push(token);
            assert(tokens.drop_last() =~= before.tokens);
            assert forall|f: u64| #[trigger] tokens_on_frame(tokens, f)
                == tokens_on_frame(before.tokens, f) + if f == before.frame { 1nat } else { 0nat } by {
                assert(tokens.last() == token);
            }
        }
    }
}

/// Shifts window-local token frames by `offset` frames to utterance frames.
pub fn offset_frames(tokens: Vec<TimedToken>, offset: u64) -> (r: Vec<TimedToken>)
    requires
        forall|i: int| 0 <= i < tokens@.len() ==> #[trigger] tokens@[i].frame + offset <= u64::MAX,
    ensures
        r@.len() == tokens@.len(),
        forall|i: int| 0 <= i < tokens@.len() ==> #[trigger] r@[i] == (TimedToken {
            id: tokens@[i].id,
            frame: (tokens@[i].frame + offset) as u64,
        }),
{
    let mut out: Vec<TimedToken> = Vec::new();
    let mut i: usize = 0;
    while i < tokens.len()
        invariant
            i <= tokens@.len(),
            out@.len() == i,
            forall|j: int| 0 <= j < tokens@.len() ==> #[trigger] tokens@[j].frame + offset <= u64::MAX,
            forall|j: int| 0 <= j < i ==> #[trigger] out@[j] == (TimedToken {
                id: tokens@[j].id,
                frame: (tokens@[j].frame + offset) as u64,
            }),
        decreases tokens.len() - i,
    {
        let token = tokens[i];
        out.push(TimedToken { id: token.id, frame: token.frame + offset });
        i += 1;
    }
    out
}

} // verus!
