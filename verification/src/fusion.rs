//! ASR/diarization fusion.
//!
//! Joins two streams that share the same 80 ms frame grid: timed ASR tokens
//! and per-frame diarization evidence. The output is a list of
//! [`SpeakerSegment`]s: zero or more finalized segments plus, at most, one
//! trailing tentative segment for tokens whose speaker cannot yet be
//! decided. Speaker evidence reaches this module as a vote per smoothing
//! window, so everything here is integer control logic; text is produced by
//! a caller-supplied `detokenize` closure.
use vstd::prelude::*;

use crate::model::TimedToken;
use crate::seqs::copy_range;

verus! {

/// One contiguous run of tokens attributed to a single speaker.
#[derive(Debug, Clone, PartialEq)]
pub struct SpeakerSegment {
    pub speaker: u8,
    pub start_ms: u64,
    pub end_ms: u64,
    pub text: String,
    pub is_final: bool,
}

/// A run of same-speaker entries of a labeled token sequence, as a
/// half-open index range.
pub struct Run {
    pub speaker: u8,
    pub start: int,
    pub end: int,
}

/// One run of same-speaker tokens, referenced as a half-open index range
/// into a flat, ordered `(token, speaker)` slice.
#[derive(Debug, Clone, Copy, PartialEq, Eq, Structural)]
pub struct Group {
    pub speaker: u8,
    pub start: usize,
    pub end: usize,
}

impl View for Group {
    type V = Run;

    open spec fn view(&self) -> Run {
        Run { speaker: self.speaker, start: self.start as int, end: self.end as int }
    }
}

/// End of the run of equal speakers that contains position `i`.
pub open spec fn run_end(labeled: Seq<(TimedToken, u8)>, i: int) -> int
    decreases labeled.len() - i,
{
    if i + 1 >= labeled.len() || labeled[i + 1].1 != labeled[i].1 {
        i + 1
    } else {
        run_end(labeled, i + 1)
    }
}

/// The maximal same-speaker runs of `labeled` from position `start` on.
pub open spec fn runs_from(labeled: Seq<(TimedToken, u8)>, start: int) -> Seq<Run>
    decreases labeled.len() - start,
{
    if start < 0 || start >= labeled.len() {
        Seq::empty()
    } else {
        let end = run_end(labeled, start);
        proof {
            lemma_run_end_bounds(labeled, start);
        }
        seq![Run { speaker: labeled[start].1, start, end }] + runs_from(labeled, end)
    }
}

/// The maximal same-speaker runs of `labeled`, in order.
pub open spec fn runs(labeled: Seq<(TimedToken, u8)>) -> Seq<Run> {
    runs_from(labeled, 0)
}

/// A run ends after its start and no later than the sequence.
pub proof fn lemma_run_end_bounds(labeled: Seq<(TimedToken, u8)>, i: int)
    requires
        0 <= i < labeled.len(),
    ensures
        i < run_end(labeled, i) <= labeled.len(),
        forall|j: int| i <= j < run_end(labeled, i) ==> #[trigger] labeled[j].1 == labeled[i].1,
        run_end(labeled, i) < labeled.len() ==> labeled[run_end(labeled, i)].1 != labeled[i].1,
    decreases labeled.len() - i,
{
    if !(i + 1 >= labeled.len() || labeled[i + 1].1 != labeled[i].1) {
        lemma_run_end_bounds(labeled, i + 1);
    }
}

/// Positions inside one run share its end.
pub proof fn lemma_run_end_same(labeled: Seq<(TimedToken, u8)>, i: int, k: int)
    requires
        0 <= i <= k < labeled.len(),
        forall|j: int| i <= j <= k ==> #[trigger] labeled[j].1 == labeled[i].1,
    ensures
        run_end(labeled, i) == run_end(labeled, k),
    decreases k - i,
{
    if i < k {
        assert(labeled[i + 1].1 == labeled[i].1);
        lemma_run_end_same(labeled, i + 1, k);
    }
}

/// `groups` splits `[start, len)` into consecutive non-empty runs of one
/// speaker each, neighbours differing.
pub open spec fn is_run_partition(labeled: Seq<(TimedToken, u8)>, groups: Seq<Run>, start: int) -> bool {
    &&& groups.len() == 0 <==> start == labeled.len()
    &&& groups.len() > 0 ==> groups[0].start == start && groups.last().end == labeled.len()
    &&& forall|k: int| 0 <= k < groups.len() ==> #[trigger] groups[k].start < groups[k].end
    &&& forall|k: int| 0 <= k < groups.len() ==> start <= #[trigger] groups[k].start && groups[k].end <= labeled.len()
    &&& forall|k: int| 0 <= k < groups.len() - 1 ==> #[trigger] groups[k].end == groups[k + 1].start
    &&& forall|k: int| 0 <= k < groups.len() - 1 ==> #[trigger] groups[k].speaker != groups[k + 1].speaker
    &&& forall|k: int, j: int| 0 <= k < groups.len() && groups[k].start <= j < groups[k].end
        ==> #[trigger] labeled[j].1 == #[trigger] groups[k].speaker
}

/// The runs of `labeled` from `start` on partition the rest of it.
pub proof fn lemma_runs_partition(labeled: Seq<(TimedToken, u8)>, start: int)
    requires
        0 <= start <= labeled.len(),
    ensures
        is_run_partition(labeled, runs_from(labeled, start), start),
    decreases labeled.len() - start,
{
    if start < labeled.len() {
        let end = run_end(labeled, start);
        lemma_run_end_bounds(labeled, start);
        lemma_runs_partition(labeled, end);
        let rest = runs_from(labeled, end);
        let g = runs_from(labeled, start);
        assert(g == seq![Run { speaker: labeled[start].1, start, end }] + rest);
        assert forall|k: int| 0 <= k < g.len() - 1 implies #[trigger] g[k].speaker != g[k + 1].speaker by {
            if k == 0 {
                assert(g[1] == rest[0]);
            } else {
                assert(g[k] == rest[k - 1]);
                assert(g[k + 1] == rest[k]);
            }
        }
        assert forall|k: int| 0 <= k < g.len() - 1 implies #[trigger] g[k].end == g[k + 1].start by {
            if k > 0 {
                assert(g[k] == rest[k - 1]);
                assert(g[k + 1] == rest[k]);
            }
        }
        assert forall|k: int, j: int| 0 <= k < g.len() && g[k].start <= j < g[k].end
            implies #[trigger] labeled[j].1 == #[trigger] g[k].speaker by {
            if k > 0 {
                assert(g[k] == rest[k - 1]);
            }
        }
        assert forall|k: int| 0 <= k < g.len() implies #[trigger] g[k].start < g[k].end by {
            if k > 0 {
                assert(g[k] == rest[k - 1]);
            }
        }
        assert forall|k: int| 0 <= k < g.len() implies start <= #[trigger] g[k].start && g[k].end <= labeled.len() by {
            if k > 0 {
                assert(g[k] == rest[k - 1]);
            }
        }
        if rest.len() > 0 {
            assert(g.last() == rest.last());
        }
    }
}

/// Groups consecutive equal-speaker entries of `labeled` into runs.
pub fn group_labeled(labeled: &[(TimedToken, u8)]) -> (groups: Vec<Group>)
    ensures
        groups@.map_values(|g: Group| g@) == runs(labeled@),
{
    let mut groups: Vec<Group> = Vec::new();
    let mut start: usize = 0;
    proof {
        assert(groups@.map_values(|g: Group| g@) + runs_from(labeled@, 0) =~= runs(labeled@));
    }
    while start < labeled.len()
        invariant
            start <= labeled@.len(),
            groups@.map_values(|g: Group| g@) + runs_from(labeled@, start as int) == runs(labeled@),
        decreases labeled.len() - start,
    {
        let speaker = labeled[start].1;
        let mut end = start + 1;
        while end < labeled.len() && labeled[end].1 == speaker
            invariant
                start < end <= labeled@.len(),
                speaker == labeled@[start as int].1,
                forall|j: int| start <= j < end ==> #[trigger] labeled@[j].1 == speaker,
            decreases labeled.len() - end,
        {
            end += 1;
        }
        proof {
            lemma_run_end_same(labeled@, start as int, end - 1);
            assert(run_end(labeled@, start as int) == end);
            let old_groups = groups@.map_values(|g: Group| g@);
            assert(runs_from(labeled@, start as int) == seq![Run { speaker, start: start as int, end: end as int }]
                + runs_from(labeled@, end as int));
        }
        let ghost before = groups@;
        groups.push(Group { speaker, start, end });
        proof {
            assert(groups@.map_values(|g: Group| g@) =~= before.map_values(|g: Group| g@).push(
                Run { speaker, start: start as int, end: end as int },
            ));
            assert(groups@.map_values(|g: Group| g@) + runs_from(labeled@, end as int) =~= runs(labeled@));
        }
        start = end;
    }
    proof {
        assert(runs_from(labeled@, start as int) =~= Seq::<Run>::empty());
        assert(groups@.map_values(|g: Group| g@) =~= runs(labeled@));
    }
    groups
}

/// Token frames never decrease along `labeled`.
pub open spec fn frames_sorted(labeled: Seq<(TimedToken, u8)>) -> bool {
    forall|i: int, j: int| 0 <= i <= j < labeled.len() ==> #[trigger] labeled[i].0.frame <= #[trigger] labeled[j].0.frame
}

/// The end time of frame `frame` fits in `u64` milliseconds.
pub open spec fn frame_fits(frame: u64, frame_ms: u64) -> bool {
    frame + 1 <= u64::MAX && (frame + 1) * frame_ms <= u64::MAX
}

/// Every token's end time fits in `u64` milliseconds.
pub open spec fn frames_fit(labeled: Seq<(TimedToken, u8)>, frame_ms: u64) -> bool {
    forall|i: int| 0 <= i < labeled.len() ==> frame_fits(#[trigger] labeled[i].0.frame, frame_ms)
}

/// Duration of a run: from its first token's frame to the end of its last.
pub open spec fn run_duration(labeled: Seq<(TimedToken, u8)>, run: Run, frame_ms: u64) -> int {
    (labeled[run.end - 1].0.frame + 1 - labeled[run.start].0.frame) * frame_ms
}

/// Duration in milliseconds of one group of a frame-ordered labeled slice.
pub fn group_duration_ms(labeled: &[(TimedToken, u8)], group: &Group, frame_ms: u64) -> (r: u64)
    requires
        group.start < group.end <= labeled@.len(),
        frames_sorted(labeled@),
        frames_fit(labeled@, frame_ms),
    ensures
        r == run_duration(labeled@, group@, frame_ms),
{
    let first_frame = labeled[group.start].0.frame;
    let last_frame = labeled[group.end - 1].0.frame;
    proof {
        assert(frame_fits(labeled@[group.end - 1].0.frame, frame_ms));
        assert(first_frame <= last_frame);
        assert((last_frame + 1 - first_frame) * frame_ms <= (last_frame + 1) * frame_ms) by (nonlinear_arith)
            requires first_frame <= last_frame;
    }
    (last_frame + 1 - first_frame) * frame_ms
}

/// The neighbour a short group merges into: the previous group, or the next
/// one for the first group.
pub open spec fn merge_target(i: int) -> int {
    if i == 0 { 1 } else { i - 1 }
}

/// Group `i` is shorter than `min_turn_ms` and its merge target is not.
pub open spec fn mergeable(labeled: Seq<(TimedToken, u8)>, groups: Seq<Run>, i: int, min_turn_ms: u64, frame_ms: u64) -> bool {
    &&& groups.len() > 1
    &&& run_duration(labeled, groups[i], frame_ms) < min_turn_ms
    &&& run_duration(labeled, groups[merge_target(i)], frame_ms) >= min_turn_ms
}

/// The leftmost mergeable group at or after `from`.
pub open spec fn first_mergeable(
    labeled: Seq<(TimedToken, u8)>,
    groups: Seq<Run>,
    min_turn_ms: u64,
    frame_ms: u64,
    from: int,
) -> Option<int>
    decreases groups.len() - from,
{
    if from < 0 || from >= groups.len() {
        None
    } else if mergeable(labeled, groups, from, min_turn_ms, frame_ms) {
        Some(from)
    } else {
        first_mergeable(labeled, groups, min_turn_ms, frame_ms, from + 1)
    }
}

/// `labeled` with every entry of `run` reassigned to `speaker`.
pub open spec fn relabel(labeled: Seq<(TimedToken, u8)>, run: Run, speaker: u8) -> Seq<(TimedToken, u8)> {
    Seq::new(labeled.len(), |k: int| if run.start <= k < run.end { (labeled[k].0, speaker) } else { labeled[k] })
}

/// Whether the speaker changes between positions `j - 1` and `j`.
pub open spec fn speaker_change(labeled: Seq<(TimedToken, u8)>, j: int) -> bool {
    1 <= j < labeled.len() && labeled[j - 1].1 != labeled[j].1
}

/// Speaker changes at positions `1..=upto`.
pub open spec fn change_count(labeled: Seq<(TimedToken, u8)>, upto: int) -> nat
    decreases upto,
{
    if upto <= 0 {
        0
    } else {
        change_count(labeled, upto - 1) + if speaker_change(labeled, upto) { 1nat } else { 0nat }
    }
}

/// Number of speaker changes along `labeled`.
pub open spec fn changes(labeled: Seq<(TimedToken, u8)>) -> nat {
    change_count(labeled, labeled.len() as int)
}

/// Fewer change points pointwise gives a smaller count, strictly so with
/// one strict point in range.
pub proof fn lemma_change_count_le(a: Seq<(TimedToken, u8)>, b: Seq<(TimedToken, u8)>, upto: int, strict: int)
    requires
        forall|j: int| speaker_change(a, j) ==> #[trigger] speaker_change(b, j),
    ensures
        change_count(a, upto) <= change_count(b, upto),
        1 <= strict <= upto && speaker_change(b, strict) && !speaker_change(a, strict)
            ==> change_count(a, upto) < change_count(b, upto),
    decreases upto,
{
    if upto > 0 {
        lemma_change_count_le(a, b, upto - 1, strict);
    }
}

/// Merging a mergeable group into its target removes at least one speaker
/// change.
pub proof fn lemma_merge_reduces_changes(labeled: Seq<(TimedToken, u8)>, i: int, min_turn_ms: u64, frame_ms: u64)
    requires
        0 <= i < runs(labeled).len(),
        mergeable(labeled, runs(labeled), i, min_turn_ms, frame_ms),
    ensures
        ({
            let groups = runs(labeled);
            changes(relabel(labeled, groups[i], groups[merge_target(i)].speaker)) < changes(labeled)
        }),
{
    let groups = runs(labeled);
    lemma_runs_partition(labeled, 0);
    let t = merge_target(i);
    let g = groups[i];
    let sp = groups[t].speaker;
    let next = relabel(labeled, g, sp);
    assert(groups[i].start < groups[i].end);
    assert(labeled[g.start].1 == g.speaker);
    assert forall|j: int| speaker_change(next, j) implies #[trigger] speaker_change(labeled, j) by {
        if g.start <= j - 1 && j < g.end {
        } else if j == g.start && j >= 1 {
            assert(i > 0);
            assert(groups[i - 1].end == g.start);
            assert(groups[i - 1].start < groups[i - 1].end);
            assert(labeled[j - 1].1 == groups[i - 1].speaker);
            assert(labeled[j].1 == g.speaker);
        } else if j == g.end && j < labeled.len() {
            assert(i + 1 < groups.len());
            assert(groups[i].end == groups[i + 1].start);
            assert(groups[i + 1].start < groups[i + 1].end);
            assert(labeled[j].1 == groups[i + 1].speaker);
            assert(labeled[j - 1].1 == g.speaker);
        }
    }
    let strict = if i > 0 { g.start } else { g.end };
    if i > 0 {
        assert(groups[i - 1].end == g.start);
        assert(groups[i - 1].start < groups[i - 1].end);
        assert(labeled[g.start - 1].1 == groups[i - 1].speaker);
        assert(next[g.start - 1] == labeled[g.start - 1]);
        assert(!speaker_change(next, strict));
        assert(speaker_change(labeled, strict));
    } else {
        assert(groups.len() > 1);
        assert(groups[0].end == groups[1].start);
        assert(groups[1].start < groups[1].end);
        assert(labeled[g.end].1 == groups[1].speaker);
        assert(next[g.end] == labeled[g.end]);
        assert(!speaker_change(next, strict));
        assert(speaker_change(labeled, strict));
    }
    lemma_change_count_le(next, labeled, labeled.len() as int, strict);
}

/// Anti-flicker: while some group is shorter than `min_turn_ms` and its
/// merge target is not, reassign the leftmost such group's tokens to the
/// target's speaker and regroup.
pub open spec fn anti_flicker(labeled: Seq<(TimedToken, u8)>, min_turn_ms: u64, frame_ms: u64) -> Seq<(TimedToken, u8)>
    decreases changes(labeled),
{
    let groups = runs(labeled);
    match first_mergeable(labeled, groups, min_turn_ms, frame_ms, 0) {
        None => labeled,
        Some(i) => {
            proof {
                lemma_first_mergeable(labeled, groups, min_turn_ms, frame_ms, 0);
                lemma_merge_reduces_changes(labeled, i, min_turn_ms, frame_ms);
            }
            anti_flicker(relabel(labeled, groups[i], groups[merge_target(i)].speaker), min_turn_ms, frame_ms)
        },
    }
}

/// The leftmost mergeable group is a mergeable group, and none before it is.
pub proof fn lemma_first_mergeable(
    labeled: Seq<(TimedToken, u8)>,
    groups: Seq<Run>,
    min_turn_ms: u64,
    frame_ms: u64,
    from: int,
)
    requires
        0 <= from,
    ensures
        first_mergeable(labeled, groups, min_turn_ms, frame_ms, from) matches Some(i) ==> from <= i < groups.len()
            && mergeable(labeled, groups, i, min_turn_ms, frame_ms)
            && forall|k: int| from <= k < i ==> !#[trigger] mergeable(labeled, groups, k, min_turn_ms, frame_ms),
        first_mergeable(labeled, groups, min_turn_ms, frame_ms, from) is None
            ==> forall|k: int| from <= k < groups.len() ==> !#[trigger] mergeable(labeled, groups, k, min_turn_ms, frame_ms),
    decreases groups.len() - from,
{
    if from < groups.len() && !mergeable(labeled, groups, from, min_turn_ms, frame_ms) {
        lemma_first_mergeable(labeled, groups, min_turn_ms, frame_ms, from + 1);
    }
}

/// Reassigns every entry in `[start, end)` to `speaker`.
fn relabel_range(labeled: &mut Vec<(TimedToken, u8)>, start: usize, end: usize, speaker: u8)
    requires
        start <= end <= old(labeled)@.len(),
    ensures
        final(labeled)@ == relabel(old(labeled)@, Run { speaker: 0, start: start as int, end: end as int }, speaker),
{
    let mut k: usize = start;
    while k < end
        invariant
            start <= k <= end <= labeled@.len(),
            labeled@.len() == old(labeled)@.len(),
            forall|j: int| 0 <= j < labeled@.len() ==> #[trigger] labeled@[j] == if start <= j < k {
                (old(labeled)@[j].0, speaker)
            } else {
                old(labeled)@[j]
            },
        decreases end - k,
    {
        let token = labeled[k].0;
        labeled.set(k, (token, speaker));
        k += 1;
    }
    assert(labeled@ =~= relabel(old(labeled)@, Run { speaker: 0, start: start as int, end: end as int }, speaker));
}

/// Anti-flicker: repeatedly finds the leftmost group shorter than
/// `min_turn_ms` whose merge target (previous group, or the next group for
/// the first) is itself long enough, reassigns that group's tokens to the
/// target's speaker and regroups. A short group whose only available
/// neighbour is also short is left alone.
pub fn apply_anti_flicker(labeled: &mut Vec<(TimedToken, u8)>, min_turn_ms: u64, frame_ms: u64)
    requires
        frames_sorted(old(labeled)@),
        frames_fit(old(labeled)@, frame_ms),
    ensures
        final(labeled)@ == anti_flicker(old(labeled)@, min_turn_ms, frame_ms),
        final(labeled)@.len() == old(labeled)@.len(),
        forall|i: int| 0 <= i < old(labeled)@.len() ==> (#[trigger] final(labeled)@[i]).0 == old(labeled)@[i].0,
{
    loop
        invariant
            anti_flicker(labeled@, min_turn_ms, frame_ms) == anti_flicker(old(labeled)@, min_turn_ms, frame_ms),
            frames_sorted(labeled@),
            frames_fit(labeled@, frame_ms),
            labeled@.len() == old(labeled)@.len(),
            forall|i: int| 0 <= i < old(labeled)@.len() ==> (#[trigger] labeled@[i]).0 == old(labeled)@[i].0,
        decreases changes(labeled@),
    {
        let groups = group_labeled(labeled.as_slice());
        let ghost current = labeled@;
        let ghost runs_now = runs(current);
        proof {
            lemma_runs_partition(current, 0);
            assert(groups@.len() == runs_now.len());
            assert forall|k: int| 0 <= k < groups@.len() implies #[trigger] groups@[k]@ == runs_now[k] by {
                assert(groups@.map_values(|g: Group| g@)[k] == groups@[k]@);
            }
        }
        if groups.len() <= 1 {
            proof {
                lemma_first_mergeable(current, runs_now, min_turn_ms, frame_ms, 0);
                assert(first_mergeable(current, runs_now, min_turn_ms, frame_ms, 0) is None);
            }
            return;
        }
        let mut i: usize = 0;
        let mut merged = false;
        while i < groups.len()
            invariant_except_break
                !merged,
            invariant
                labeled@ == current || merged,
                current == labeled@ || merged,
                runs_now == runs(current),
                is_run_partition(current, runs_now, 0),
                groups@.len() == runs_now.len(),
                groups@.len() > 1,
                forall|k: int| 0 <= k < groups@.len() ==> #[trigger] groups@[k]@ == runs_now[k],
                i <= groups@.len(),
                forall|k: int| 0 <= k < i ==> !#[trigger] mergeable(current, runs_now, k, min_turn_ms, frame_ms),
                frames_sorted(current),
                frames_fit(current, frame_ms),
            ensures
                !merged ==> forall|k: int| 0 <= k < groups@.len() ==> !#[trigger] mergeable(current, runs_now, k, min_turn_ms, frame_ms),
                !merged ==> labeled@ == current,
                merged ==> exists|m: int| 0 <= m < runs_now.len()
                    && first_mergeable(current, runs_now, min_turn_ms, frame_ms, 0) == Some(m)
                    && labeled@ == relabel(current, runs_now[m], runs_now[merge_target(m)].speaker),
            decreases groups@.len() - i,
        {
            proof {
                assert(groups@[i as int]@ == runs_now[i as int]);
                assert(runs_now[i as int].start < runs_now[i as int].end);
                assert(0 <= runs_now[i as int].start && runs_now[i as int].end <= current.len());
            }
            let duration = group_duration_ms(labeled.as_slice(), &groups[i], frame_ms);
            if duration < min_turn_ms {
                let target = if i == 0 { 1 } else { i - 1 };
                proof {
                    assert(groups@[target as int]@ == runs_now[target as int]);
                    assert(runs_now[target as int].start < runs_now[target as int].end);
                    assert(0 <= runs_now[target as int].start && runs_now[target as int].end <= current.len());
                }
                let target_duration = group_duration_ms(labeled.as_slice(), &groups[target], frame_ms);
                if target_duration >= min_turn_ms {
                    let speaker = groups[target].speaker;
                    proof {
                        assert(mergeable(current, runs_now, i as int, min_turn_ms, frame_ms));
                        lemma_first_mergeable(current, runs_now, min_turn_ms, frame_ms, 0);
                        lemma_first_mergeable_is_first(current, runs_now, min_turn_ms, frame_ms, i as int);
                    }
                    relabel_range(labeled, groups[i].start, groups[i].end, speaker);
                    proof {
                        assert(labeled@ =~= relabel(current, runs_now[i as int], runs_now[merge_target(i as int)].speaker));
                    }
                    merged = true;
                    break;
                }
            }
            i += 1;
        }
        if !merged {
            proof {
                lemma_first_mergeable(current, runs_now, min_turn_ms, frame_ms, 0);
                if first_mergeable(current, runs_now, min_turn_ms, frame_ms, 0) is Some {
                    let m = first_mergeable(current, runs_now, min_turn_ms, frame_ms, 0)->0;
                    assert(!mergeable(current, runs_now, m, min_turn_ms, frame_ms));
                }
            }
            return;
        }
        proof {
            let m = choose|m: int| 0 <= m < runs_now.len()
                && first_mergeable(current, runs_now, min_turn_ms, frame_ms, 0) == Some(m)
                && labeled@ == relabel(current, runs_now[m], runs_now[merge_target(m)].speaker);
            lemma_first_mergeable(current, runs_now, min_turn_ms, frame_ms, 0);
            lemma_merge_reduces_changes(current, m, min_turn_ms, frame_ms);
            assert(frames_sorted(labeled@));
            assert(frames_fit(labeled@, frame_ms));
            assert forall|i: int| 0 <= i < old(labeled)@.len() implies (#[trigger] labeled@[i]).0 == old(labeled)@[i].0 by {
                assert(labeled@[i].0 == current[i].0);
            }
        }
    }
}

/// A mergeable group with no mergeable group before it is the leftmost one.
pub proof fn lemma_first_mergeable_is_first(
    labeled: Seq<(TimedToken, u8)>,
    groups: Seq<Run>,
    min_turn_ms: u64,
    frame_ms: u64,
    i: int,
)
    requires
        0 <= i < groups.len(),
        mergeable(labeled, groups, i, min_turn_ms, frame_ms),
        forall|k: int| 0 <= k < i ==> !#[trigger] mergeable(labeled, groups, k, min_turn_ms, frame_ms),
    ensures
        first_mergeable(labeled, groups, min_turn_ms, frame_ms, 0) == Some(i),
{
    lemma_first_mergeable_from(labeled, groups, min_turn_ms, frame_ms, 0, i);
}

proof fn lemma_first_mergeable_from(
    labeled: Seq<(TimedToken, u8)>,
    groups: Seq<Run>,
    min_turn_ms: u64,
    frame_ms: u64,
    from: int,
    i: int,
)
    requires
        0 <= from <= i < groups.len(),
        mergeable(labeled, groups, i, min_turn_ms, frame_ms),
        forall|k: int| from <= k < i ==> !#[trigger] mergeable(labeled, groups, k, min_turn_ms, frame_ms),
    ensures
        first_mergeable(labeled, groups, min_turn_ms, frame_ms, from) == Some(i),
    decreases i - from,
{
    if from < i {
        lemma_first_mergeable_from(labeled, groups, min_turn_ms, frame_ms, from + 1, i);
    }
}

/// Token ids of `entries`, in order.
pub open spec fn entry_ids(entries: Seq<(TimedToken, u8)>) -> Seq<u32> {
    entries.map_values(|e: (TimedToken, u8)| e.0.id)
}

/// `text` is what `detokenize` may return for `ids`.
pub open spec fn detokenized<D: Fn(&[u32]) -> String>(detokenize: D, ids: Seq<u32>, text: String) -> bool {
    exists|slice: &[u32]| slice@ == ids && call_ensures(detokenize, (slice,), text)
}

/// `segment` covers `entries` for `speaker`: from the first entry's frame
/// to the end of the last, with the detokenized ids as text.
pub open spec fn segment_covers<D: Fn(&[u32]) -> String>(
    segment: SpeakerSegment,
    entries: Seq<(TimedToken, u8)>,
    speaker: u8,
    frame_ms: u64,
    is_final: bool,
    detokenize: D,
) -> bool {
    &&& segment.speaker == speaker
    &&& segment.start_ms == entries[0].0.frame * frame_ms
    &&& segment.end_ms == (entries.last().0.frame + 1) * frame_ms
    &&& segment.is_final == is_final
    &&& detokenized(detokenize, entry_ids(entries), segment.text)
}

/// Builds one segment from a contiguous, non-empty slice of `(token,
/// speaker)` pairs sharing the same speaker.
pub fn build_segment<D: Fn(&[u32]) -> String>(
    entries: &[(TimedToken, u8)],
    speaker: u8,
    frame_ms: u64,
    is_final: bool,
    detokenize: &D,
) -> (r: SpeakerSegment)
    requires
        entries@.len() > 0,
        frame_fits(entries@[0].0.frame, frame_ms),
        frame_fits(entries@.last().0.frame, frame_ms),
        forall|slice: &[u32]| call_requires(*detokenize, (slice,)),
    ensures
        segment_covers(r, entries@, speaker, frame_ms, is_final, *detokenize),
{
    let first_frame = entries[0].0.frame;
    let last_frame = entries[entries.len() - 1].0.frame;
    proof {
        assert(first_frame * frame_ms <= (first_frame + 1) * frame_ms) by (nonlinear_arith);
    }
    let mut ids: Vec<u32> = Vec::new();
    let mut k: usize = 0;
    while k < entries.len()
        invariant
            k <= entries@.len(),
            ids@ == entry_ids(entries@).take(k as int),
        decreases entries.len() - k,
    {
        ids.push(entries[k].0.id);
        k += 1;
        assert(ids@ =~= entry_ids(entries@).take(k as int));
    }
    assert(ids@ =~= entry_ids(entries@));
    let text = detokenize(ids.as_slice());
    SpeakerSegment {
        speaker,
        start_ms: first_frame * frame_ms,
        end_ms: (last_frame + 1) * frame_ms,
        text,
        is_final,
    }
}

/// Builds the single tentative segment holding all undecidable tokens,
/// attributed to `last_speaker`; `None` when there are none.
pub fn build_tail<D: Fn(&[u32]) -> String>(
    tail_tokens: &[TimedToken],
    last_speaker: u8,
    frame_ms: u64,
    detokenize: &D,
) -> (r: Option<SpeakerSegment>)
    requires
        forall|i: int| 0 <= i < tail_tokens@.len() ==> frame_fits(#[trigger] tail_tokens@[i].frame, frame_ms),
        forall|slice: &[u32]| call_requires(*detokenize, (slice,)),
    ensures
        tail_tokens@.len() == 0 <==> r is None,
        r matches Some(segment) ==> segment_covers(
            segment,
            with_speaker(tail_tokens@, last_speaker),
            last_speaker,
            frame_ms,
            false,
            *detokenize,
        ),
{
    if tail_tokens.len() == 0 {
        return None;
    }
    let mut entries: Vec<(TimedToken, u8)> = Vec::new();
    let mut k: usize = 0;
    while k < tail_tokens.len()
        invariant
            k <= tail_tokens@.len(),
            entries@ == with_speaker(tail_tokens@, last_speaker).take(k as int),
        decreases tail_tokens.len() - k,
    {
        entries.push((tail_tokens[k], last_speaker));
        k += 1;
        assert(entries@ =~= with_speaker(tail_tokens@, last_speaker).take(k as int));
    }
    assert(entries@ =~= with_speaker(tail_tokens@, last_speaker));
    Some(build_segment(entries.as_slice(), last_speaker, frame_ms, false, detokenize))
}

/// Every token paired with `speaker`.
pub open spec fn with_speaker(tokens: Seq<TimedToken>, speaker: u8) -> Seq<(TimedToken, u8)> {
    tokens.map_values(|t: TimedToken| (t, speaker))
}

/// A token at `frame` can be attributed: after a flush, or once the
/// diarization frames cover its whole smoothing window.
pub open spec fn decidable(frame: u64, smooth_frames: usize, diar_len: usize, flushed: bool) -> bool {
    flushed || frame + smooth_frames < diar_len
}

/// The inclusive diarization window `[lo, hi]` averaged for a token at
/// `frame`: `smooth_frames` on each side, clipped to the available frames.
pub open spec fn window_bounds(frame: u64, smooth_frames: usize, diar_len: usize) -> (int, int) {
    let last = diar_len - 1;
    let below = if frame >= smooth_frames { frame - smooth_frames } else { 0 };
    let above = frame + smooth_frames;
    (if below <= last { below } else { last }, if above <= last { above } else { last })
}

/// The inclusive smoothing window of a token at `frame`; `diar_len` must be
/// positive.
pub fn attribution_window(frame: u64, smooth_frames: usize, diar_len: usize) -> (r: (usize, usize))
    requires
        diar_len > 0,
        frame + smooth_frames <= u64::MAX,
    ensures
        r.0 == window_bounds(frame, smooth_frames, diar_len).0,
        r.1 == window_bounds(frame, smooth_frames, diar_len).1,
        r.0 <= r.1 < diar_len,
{
    let last = diar_len - 1;
    let smooth = smooth_frames as u64;
    let below = if frame >= smooth { frame - smooth } else { 0 };
    let above = frame + smooth;
    let lo = if below <= last as u64 { below as usize } else { last };
    let hi = if above <= last as u64 { above as usize } else { last };
    (lo, hi)
}

/// The speaker of a decidable token: the window's vote, else the previous
/// token's speaker, else speaker 0.
pub open spec fn voted_speaker(vote: Option<u8>, previous: Option<u8>) -> u8 {
    match vote {
        Some(speaker) => speaker,
        None => match previous {
            Some(speaker) => speaker,
            None => 0,
        },
    }
}

/// Labeled decidable tokens, undecidable tokens and the last attributed
/// speaker after the first `count` tokens, given each token's window vote.
pub open spec fn label_prefix(
    tokens: Seq<TimedToken>,
    votes: Seq<Option<u8>>,
    diar_len: usize,
    smooth_frames: usize,
    flushed: bool,
    count: int,
) -> (Seq<(TimedToken, u8)>, Seq<TimedToken>, Option<u8>)
    decreases count,
{
    if count <= 0 {
        (Seq::empty(), Seq::empty(), None)
    } else {
        let (labeled, tail, previous) = label_prefix(tokens, votes, diar_len, smooth_frames, flushed, count - 1);
        let token = tokens[count - 1];
        if decidable(token.frame, smooth_frames, diar_len, flushed) {
            let vote = if diar_len == 0 { None } else { votes[count - 1] };
            let speaker = voted_speaker(vote, previous);
            (labeled.push((token, speaker)), tail, Some(speaker))
        } else {
            (labeled, tail.push(token), previous)
        }
    }
}

/// `votes[k]` is what `vote` may answer for token `k`'s window, for every
/// token that is decided against at least one diarization frame.
pub open spec fn votes_answered<V: Fn(usize, usize) -> Option<u8>>(
    vote: V,
    tokens: Seq<TimedToken>,
    votes: Seq<Option<u8>>,
    diar_len: usize,
    smooth_frames: usize,
    flushed: bool,
) -> bool {
    &&& votes.len() == tokens.len()
    &&& forall|k: int| 0 <= k < tokens.len() && diar_len > 0 && decidable(tokens[k].frame, smooth_frames, diar_len, flushed)
        ==> call_ensures(
            vote,
            (
                window_bounds(tokens[k].frame, smooth_frames, diar_len).0 as usize,
                window_bounds(tokens[k].frame, smooth_frames, diar_len).1 as usize,
            ),
            #[trigger] votes[k],
        )
}

/// Every token's smoothing window ends within `u64`.
pub open spec fn windows_fit(tokens: Seq<TimedToken>, smooth_frames: usize) -> bool {
    forall|k: int| 0 <= k < tokens.len() ==> #[trigger] tokens[k].frame + smooth_frames <= u64::MAX
}

/// Every token's frame, widened by the smoothing window and by one frame
/// in milliseconds, fits in `u64`.
pub open spec fn tokens_fit(tokens: Seq<TimedToken>, smooth_frames: usize, frame_ms: u64) -> bool {
    &&& windows_fit(tokens, smooth_frames)
    &&& forall|k: int| 0 <= k < tokens.len() ==> frame_fits(#[trigger] tokens[k].frame, frame_ms)
}

/// Token frames never decrease.
pub open spec fn tokens_sorted(tokens: Seq<TimedToken>) -> bool {
    forall|i: int, j: int| 0 <= i <= j < tokens.len() ==> #[trigger] tokens[i].frame <= #[trigger] tokens[j].frame
}

/// Splits `tokens` into decidable tokens labeled with their speaker and
/// the undecidable rest, both in order.
pub fn label_tokens<V: Fn(usize, usize) -> Option<u8>>(
    tokens: &[TimedToken],
    diar_len: usize,
    smooth_frames: usize,
    flushed: bool,
    vote: &V,
) -> (r: (Vec<(TimedToken, u8)>, Vec<TimedToken>))
    requires
        windows_fit(tokens@, smooth_frames),
        forall|lo: usize, hi: usize| lo <= hi < diar_len ==> call_requires(*vote, (lo, hi)),
    ensures
        exists|votes: Seq<Option<u8>>| {
            &&& votes_answered(*vote, tokens@, votes, diar_len, smooth_frames, flushed)
            &&& r.0@ == label_prefix(tokens@, votes, diar_len, smooth_frames, flushed, tokens@.len() as int).0
            &&& r.1@ == label_prefix(tokens@, votes, diar_len, smooth_frames, flushed, tokens@.len() as int).1
        },
{
    let mut labeled: Vec<(TimedToken, u8)> = Vec::new();
    let mut tail: Vec<TimedToken> = Vec::new();
    let mut previous: Option<u8> = None;
    let ghost mut votes: Seq<Option<u8>> = Seq::empty();
    let mut k: usize = 0;
    while k < tokens.len()
        invariant
            k <= tokens@.len(),
            windows_fit(tokens@, smooth_frames),
            forall|lo: usize, hi: usize| lo <= hi < diar_len ==> call_requires(*vote, (lo, hi)),
            votes.len() == k,
            forall|j: int| 0 <= j < k && diar_len > 0 && decidable(tokens@[j].frame, smooth_frames, diar_len, flushed)
                ==> call_ensures(
                    *vote,
                    (
                        window_bounds(tokens@[j].frame, smooth_frames, diar_len).0 as usize,
                        window_bounds(tokens@[j].frame, smooth_frames, diar_len).1 as usize,
                    ),
                    #[trigger] votes[j],
                ),
            label_prefix(tokens@, votes, diar_len, smooth_frames, flushed, k as int) == (labeled@, tail@, previous),
        decreases tokens.len() - k,
    {
        let token = tokens[k];
        assert(token.frame + smooth_frames <= u64::MAX);
        let ghost before = votes;
        let is_decidable = flushed || token.frame + (smooth_frames as u64) < diar_len as u64;
        if is_decidable {
            let speaker = if diar_len == 0 {
                proof { votes = votes.push(None); }
                match previous {
                    Some(p) => p,
                    None => 0,
                }
            } else {
                let (lo, hi) = attribution_window(token.frame, smooth_frames, diar_len);
                let answer = vote(lo, hi);
                proof { votes = votes.push(answer); }
                match answer {
                    Some(s) => s,
                    None => match previous {
                        Some(p) => p,
                        None => 0,
                    },
                }
            };
            labeled.push((token, speaker));
            previous = Some(speaker);
        } else {
            proof { votes = votes.push(None); }
            tail.push(token);
        }
        proof {
            assert(votes.take(k as int) =~= before);
            assert forall|j: int| 0 <= j < k + 1 && diar_len > 0 && decidable(tokens@[j].frame, smooth_frames, diar_len, flushed)
                implies call_ensures(
                    *vote,
                    (
                        window_bounds(tokens@[j].frame, smooth_frames, diar_len).0 as usize,
                        window_bounds(tokens@[j].frame, smooth_frames, diar_len).1 as usize,
                    ),
                    #[trigger] votes[j],
                ) by {
                if j < k {
                    assert(votes[j] == before[j]);
                }
            }
            lemma_label_prefix_extend(tokens@, before, votes, diar_len, smooth_frames, flushed, k as int);
        }
        k += 1;
    }
    proof {
        assert(votes_answered(*vote, tokens@, votes, diar_len, smooth_frames, flushed));
        assert(label_prefix(tokens@, votes, diar_len, smooth_frames, flushed, tokens@.len() as int) == (labeled@, tail@, previous));
    }
    (labeled, tail)
}

/// The labeling of a prefix only reads the votes of that prefix.
proof fn lemma_label_prefix_extend(
    tokens: Seq<TimedToken>,
    short: Seq<Option<u8>>,
    long: Seq<Option<u8>>,
    diar_len: usize,
    smooth_frames: usize,
    flushed: bool,
    count: int,
)
    requires
        0 <= count <= short.len(),
        short.len() <= long.len(),
        forall|j: int| 0 <= j < short.len() ==> short[j] == long[j],
    ensures
        label_prefix(tokens, short, diar_len, smooth_frames, flushed, count)
            == label_prefix(tokens, long, diar_len, smooth_frames, flushed, count),
    decreases count,
{
    if count > 0 {
        lemma_label_prefix_extend(tokens, short, long, diar_len, smooth_frames, flushed, count - 1);
    }
}

/// The decidable tokens of a prefix are in frame order and fit, and so do
/// the undecidable ones.
proof fn lemma_label_prefix_frames(
    tokens: Seq<TimedToken>,
    votes: Seq<Option<u8>>,
    diar_len: usize,
    smooth_frames: usize,
    flushed: bool,
    frame_ms: u64,
    count: int,
)
    requires
        0 <= count <= tokens.len(),
        tokens_sorted(tokens),
        tokens_fit(tokens, smooth_frames, frame_ms),
    ensures
        ({
            let (labeled, tail, _) = label_prefix(tokens, votes, diar_len, smooth_frames, flushed, count);
            &&& frames_sorted(labeled)
            &&& frames_fit(labeled, frame_ms)
            &&& count > 0 ==> forall|m: int| 0 <= m < labeled.len() ==> #[trigger] labeled[m].0.frame <= tokens[count - 1].frame
            &&& forall|m: int| 0 <= m < tail.len() ==> frame_fits(#[trigger] tail[m].frame, frame_ms)
        }),
    decreases count,
{
    if count > 0 {
        lemma_label_prefix_frames(tokens, votes, diar_len, smooth_frames, flushed, frame_ms, count - 1);
        let (labeled, tail, _) = label_prefix(tokens, votes, diar_len, smooth_frames, flushed, count - 1);
        assert(frame_fits(tokens[count - 1].frame, frame_ms));
        if count > 1 {
            assert(tokens[count - 2].frame <= tokens[count - 1].frame);
        }
    }
}

/// `segments` is the fusion of `tokens` under window votes `votes`: the
/// anti-flickered runs of the decidable tokens as final segments, then one
/// tentative segment with every undecidable token, attributed to the last
/// final speaker (or speaker 0).
pub open spec fn fused<D: Fn(&[u32]) -> String>(
    segments: Seq<SpeakerSegment>,
    tokens: Seq<TimedToken>,
    votes: Seq<Option<u8>>,
    diar_len: usize,
    smooth_frames: usize,
    flushed: bool,
    min_turn_ms: u64,
    frame_ms: u64,
    detokenize: D,
) -> bool {
    let (labeled, tail, _) = label_prefix(tokens, votes, diar_len, smooth_frames, flushed, tokens.len() as int);
    let settled = anti_flicker(labeled, min_turn_ms, frame_ms);
    let groups = runs(settled);
    let last_speaker = if groups.len() > 0 { groups.last().speaker } else { 0u8 };
    &&& segments.len() == groups.len() + if tail.len() > 0 { 1int } else { 0int }
    &&& forall|k: int| 0 <= k < groups.len() ==> segment_covers(
        #[trigger] segments[k],
        settled.subrange(groups[k].start, groups[k].end),
        groups[k].speaker,
        frame_ms,
        true,
        detokenize,
    )
    &&& tail.len() > 0 ==> segment_covers(
        segments[groups.len() as int],
        with_speaker(tail, last_speaker),
        last_speaker,
        frame_ms,
        false,
        detokenize,
    )
}

/// Recomputes the full segment list from the raw streams: `diar_len`
/// diarization frames, `vote(lo, hi)` for the speaker supported by frames
/// `lo..=hi` (if any), and `detokenize` called once per output segment with
/// that segment's token ids in frame order.
pub fn fuse_segments<V: Fn(usize, usize) -> Option<u8>, D: Fn(&[u32]) -> String>(
    tokens: &[TimedToken],
    diar_len: usize,
    flushed: bool,
    smooth_frames: usize,
    min_turn_ms: u64,
    frame_ms: u64,
    vote: V,
    detokenize: D,
) -> (r: Vec<SpeakerSegment>)
    requires
        tokens_sorted(tokens@),
        tokens_fit(tokens@, smooth_frames, frame_ms),
        forall|lo: usize, hi: usize| lo <= hi < diar_len ==> call_requires(vote, (lo, hi)),
        forall|slice: &[u32]| call_requires(detokenize, (slice,)),
    ensures
        exists|votes: Seq<Option<u8>>| {
            &&& votes_answered(vote, tokens@, votes, diar_len, smooth_frames, flushed)
            &&& fused(r@, tokens@, votes, diar_len, smooth_frames, flushed, min_turn_ms, frame_ms, detokenize)
        },
{
    let (mut labeled, tail) = label_tokens(tokens, diar_len, smooth_frames, flushed, &vote);
    let ghost votes = choose|votes: Seq<Option<u8>>| {
        &&& votes_answered(vote, tokens@, votes, diar_len, smooth_frames, flushed)
        &&& labeled@ == label_prefix(tokens@, votes, diar_len, smooth_frames, flushed, tokens@.len() as int).0
        &&& tail@ == label_prefix(tokens@, votes, diar_len, smooth_frames, flushed, tokens@.len() as int).1
    };
    proof {
        lemma_label_prefix_frames(tokens@, votes, diar_len, smooth_frames, flushed, frame_ms, tokens@.len() as int);
    }
    let ghost initial = labeled@;
    apply_anti_flicker(&mut labeled, min_turn_ms, frame_ms);
    let groups = group_labeled(labeled.as_slice());
    let ghost settled = labeled@;
    let ghost run_list = runs(settled);
    proof {
        lemma_runs_partition(settled, 0);
        assert forall|k: int| 0 <= k < groups@.len() implies #[trigger] groups@[k]@ == run_list[k] by {
            assert(groups@.map_values(|g: Group| g@)[k] == groups@[k]@);
        }
        assert forall|i: int| 0 <= i < settled.len() implies frame_fits(#[trigger] settled[i].0.frame, frame_ms) by {
            assert(settled[i].0 == initial[i].0);
        }
    }
    let mut result: Vec<SpeakerSegment> = Vec::new();
    let mut k: usize = 0;
    while k < groups.len()
        invariant
            settled == labeled@,
            run_list == runs(settled),
            is_run_partition(settled, run_list, 0),
            groups@.len() == run_list.len(),
            forall|j: int| 0 <= j < groups@.len() ==> #[trigger] groups@[j]@ == run_list[j],
            forall|i: int| 0 <= i < settled.len() ==> frame_fits(#[trigger] settled[i].0.frame, frame_ms),
            forall|slice: &[u32]| call_requires(detokenize, (slice,)),
            k <= groups@.len(),
            result@.len() == k,
            forall|j: int| 0 <= j < k ==> segment_covers(
                #[trigger] result@[j],
                settled.subrange(run_list[j].start, run_list[j].end),
                run_list[j].speaker,
                frame_ms,
                true,
                detokenize,
            ),
        decreases groups@.len() - k,
    {
        let group = groups[k];
        proof {
            assert(groups@[k as int]@ == run_list[k as int]);
            assert(run_list[k as int].start < run_list[k as int].end);
            assert(0 <= run_list[k as int].start && run_list[k as int].end <= settled.len());
        }
        let entries = copy_range(labeled.as_slice(), group.start, group.end);
        proof {
            assert(frame_fits(settled[group.start as int].0.frame, frame_ms));
            assert(frame_fits(settled[group.end - 1].0.frame, frame_ms));
        }
        let segment = build_segment(entries.as_slice(), group.speaker, frame_ms, true, &detokenize);
        result.push(segment);
        k += 1;
    }
    let last_speaker = if groups.len() > 0 { groups[groups.len() - 1].speaker } else { 0 };
    proof {
        if groups@.len() > 0 {
            assert(groups@[groups@.len() - 1]@ == run_list[run_list.len() - 1]);
        }
    }
    match build_tail(tail.as_slice(), last_speaker, frame_ms, &detokenize) {
        Some(segment) => {
            result.push(segment);
        },
        None => {},
    }
    proof {
        assert(fused(result@, tokens@, votes, diar_len, smooth_frames, flushed, min_turn_ms, frame_ms, detokenize));
    }
    result
}

/// Anti-flicker settles: afterwards no group is shorter than the minimum
/// turn while its merge target is long enough, and only speakers changed —
/// every token keeps its place.
pub proof fn lemma_anti_flicker_settles(labeled: Seq<(TimedToken, u8)>, min_turn_ms: u64, frame_ms: u64)
    ensures
        ({
            let settled = anti_flicker(labeled, min_turn_ms, frame_ms);
            &&& forall|k: int| 0 <= k < runs(settled).len()
                ==> !#[trigger] mergeable(settled, runs(settled), k, min_turn_ms, frame_ms)
            &&& settled.len() == labeled.len()
            &&& forall|i: int| 0 <= i < labeled.len() ==> (#[trigger] settled[i]).0 == labeled[i].0
        }),
    decreases changes(labeled),
{
    let groups = runs(labeled);
    lemma_first_mergeable(labeled, groups, min_turn_ms, frame_ms, 0);
    match first_mergeable(labeled, groups, min_turn_ms, frame_ms, 0) {
        None => {},
        Some(i) => {
            lemma_merge_reduces_changes(labeled, i, min_turn_ms, frame_ms);
            let next = relabel(labeled, groups[i], groups[merge_target(i)].speaker);
            lemma_anti_flicker_settles(next, min_turn_ms, frame_ms);
            assert(anti_flicker(labeled, min_turn_ms, frame_ms) == anti_flicker(next, min_turn_ms, frame_ms));
            assert forall|j: int| 0 <= j < labeled.len() implies (#[trigger] anti_flicker(labeled, min_turn_ms, frame_ms)[j]).0
                == labeled[j].0 by {
                assert(next[j].0 == labeled[j].0);
            }
        },
    }
}

/// `current` holds the tokens of `original` in place, and every token whose
/// speaker was reassigned shares the speaker of the token before it, or,
/// for the very first token, of the token after it.
pub open spec fn reassigned_to_neighbour(original: Seq<(TimedToken, u8)>, current: Seq<(TimedToken, u8)>) -> bool {
    &&& current.len() == original.len()
    &&& forall|j: int| 0 <= j < current.len() ==> (#[trigger] current[j]).0 == original[j].0
    &&& forall|j: int| 0 < j < current.len() && (#[trigger] current[j]).1 != original[j].1
        ==> current[j].1 == current[j - 1].1
    &&& current.len() > 0 && current[0].1 != original[0].1 ==> current.len() > 1 && current[0].1 == current[1].1
}

/// One merge step keeps every reassigned token next to a token of its new
/// speaker.
proof fn lemma_merge_step_reassigns_to_neighbour(
    original: Seq<(TimedToken, u8)>,
    current: Seq<(TimedToken, u8)>,
    i: int,
    min_turn_ms: u64,
    frame_ms: u64,
)
    requires
        reassigned_to_neighbour(original, current),
        0 <= i < runs(current).len(),
        mergeable(current, runs(current), i, min_turn_ms, frame_ms),
    ensures
        reassigned_to_neighbour(
            original,
            relabel(current, runs(current)[i], runs(current)[merge_target(i)].speaker),
        ),
{
    let groups = runs(current);
    lemma_runs_partition(current, 0);
    let g = groups[i];
    let sp = groups[merge_target(i)].speaker;
    let next = relabel(current, g, sp);
    let n = current.len() as int;
    assert(g.start < g.end);
    if i > 0 {
        assert(groups[i - 1].end == g.start);
        assert(groups[i - 1].start < groups[i - 1].end);
        assert(current[g.start - 1].1 == groups[i - 1].speaker);
    } else {
        assert(g.start == 0);
        assert(groups[0].end == groups[1].start);
        assert(groups[1].start < groups[1].end);
        assert(current[g.end].1 == groups[1].speaker);
    }
    if i + 1 < groups.len() {
        assert(groups[i].end == groups[i + 1].start);
        assert(groups[i + 1].start < groups[i + 1].end);
        assert(current[g.end].1 == groups[i + 1].speaker);
        assert(groups[i].speaker != groups[i + 1].speaker);
    } else {
        assert(g.end == n);
    }
    assert(current[g.end - 1].1 == g.speaker);
    assert forall|j: int| 0 < j < n && (#[trigger] next[j]).1 != original[j].1 implies next[j].1 == next[j - 1].1 by {
        if g.start <= j < g.end {
            if j > g.start {
                assert(next[j - 1].1 == sp);
            } else {
                assert(i > 0);
                assert(next[j - 1] == current[j - 1]);
            }
        } else {
            assert(next[j] == current[j]);
            assert(current[j].1 == current[j - 1].1);
            if j == g.end {
                assert(current[j - 1].1 == g.speaker);
                assert(false);
            }
            assert(next[j - 1] == current[j - 1]);
        }
    }
    if n > 0 && next[0].1 != original[0].1 {
        if i == 0 {
            if 1 < g.end {
                assert(next[1].1 == sp);
            } else {
                assert(next[1] == current[1]);
            }
        } else {
            assert(next[0] == current[0]);
            assert(current[0].1 == current[1].1);
            if g.start == 1 {
                assert(groups[0].start == 0 && groups[0].end == 1);
                assert(current[0].1 == groups[0].speaker);
                assert(i == 1);
                assert(groups[0].speaker != groups[1].speaker);
                assert(false);
            }
            assert(next[1] == current[1]);
        }
    }
    assert forall|j: int| 0 <= j < n implies (#[trigger] next[j]).0 == original[j].0 by {
        assert(next[j].0 == current[j].0);
    }
}

/// Anti-flicker keeps every reassigned token next to a token of its new
/// speaker.
proof fn lemma_anti_flicker_reassigns_to_neighbour(
    original: Seq<(TimedToken, u8)>,
    current: Seq<(TimedToken, u8)>,
    min_turn_ms: u64,
    frame_ms: u64,
)
    requires
        reassigned_to_neighbour(original, current),
    ensures
        reassigned_to_neighbour(original, anti_flicker(current, min_turn_ms, frame_ms)),
    decreases changes(current),
{
    let groups = runs(current);
    lemma_first_mergeable(current, groups, min_turn_ms, frame_ms, 0);
    match first_mergeable(current, groups, min_turn_ms, frame_ms, 0) {
        None => {},
        Some(i) => {
            lemma_merge_reduces_changes(current, i, min_turn_ms, frame_ms);
            lemma_merge_step_reassigns_to_neighbour(original, current, i, min_turn_ms, frame_ms);
            let next = relabel(current, groups[i], groups[merge_target(i)].speaker);
            lemma_anti_flicker_reassigns_to_neighbour(original, next, min_turn_ms, frame_ms);
        },
    }
}

/// The anti-flicker law. Tokens keep their places and only speakers change.
/// A short turn joins the turn before it, and only the first turn joins the
/// turn after it: a reassigned token always takes the speaker of the token
/// just before it, the very first token that of the token after it. Once
/// settled, a turn shorter than `min_turn_ms` stands only beside a short
/// turn: the one before it, or for the first turn the one after it (a short
/// last turn after a long one is merged into it).
pub proof fn lemma_anti_flicker_law(labeled: Seq<(TimedToken, u8)>, min_turn_ms: u64, frame_ms: u64)
    ensures
        ({
            let settled = anti_flicker(labeled, min_turn_ms, frame_ms);
            let groups = runs(settled);
            &&& settled.len() == labeled.len()
            &&& forall|j: int| 0 <= j < labeled.len() ==> (#[trigger] settled[j]).0 == labeled[j].0
            &&& forall|j: int| 0 < j < labeled.len() && (#[trigger] settled[j]).1 != labeled[j].1
                ==> settled[j].1 == settled[j - 1].1
            &&& labeled.len() > 0 && settled[0].1 != labeled[0].1 ==> labeled.len() > 1 && settled[0].1 == settled[1].1
            &&& forall|k: int| 0 < k < groups.len() && #[trigger] run_duration(settled, groups[k], frame_ms) < min_turn_ms
                ==> run_duration(settled, groups[k - 1], frame_ms) < min_turn_ms
            &&& groups.len() > 1 && run_duration(settled, groups[0], frame_ms) < min_turn_ms
                ==> run_duration(settled, groups[1], frame_ms) < min_turn_ms
        }),
{
    lemma_anti_flicker_settles(labeled, min_turn_ms, frame_ms);
    lemma_anti_flicker_reassigns_to_neighbour(labeled, labeled, min_turn_ms, frame_ms);
    let settled = anti_flicker(labeled, min_turn_ms, frame_ms);
    let groups = runs(settled);
    assert forall|k: int| 0 < k < groups.len() && #[trigger] run_duration(settled, groups[k], frame_ms) < min_turn_ms
        implies run_duration(settled, groups[k - 1], frame_ms) < min_turn_ms by {
        assert(!mergeable(settled, groups, k, min_turn_ms, frame_ms));
    }
    if groups.len() > 1 {
        assert(!mergeable(settled, groups, 0, min_turn_ms, frame_ms));
    }
}

/// After a flush every token is decidable: the fusion has no tentative
/// segment, and every segment is final.
pub proof fn lemma_flushed_segments_final<D: Fn(&[u32]) -> String>(
    segments: Seq<SpeakerSegment>,
    tokens: Seq<TimedToken>,
    votes: Seq<Option<u8>>,
    diar_len: usize,
    smooth_frames: usize,
    min_turn_ms: u64,
    frame_ms: u64,
    detokenize: D,
)
    requires
        fused(segments, tokens, votes, diar_len, smooth_frames, true, min_turn_ms, frame_ms, detokenize),
    ensures
        forall|k: int| 0 <= k < segments.len() ==> (#[trigger] segments[k]).is_final,
{
    lemma_flushed_nothing_pending(tokens, votes, diar_len, smooth_frames, tokens.len() as int);
}

proof fn lemma_flushed_nothing_pending(
    tokens: Seq<TimedToken>,
    votes: Seq<Option<u8>>,
    diar_len: usize,
    smooth_frames: usize,
    count: int,
)
    ensures
        label_prefix(tokens, votes, diar_len, smooth_frames, true, count).1.len() == 0,
    decreases count,
{
    if count > 0 {
        lemma_flushed_nothing_pending(tokens, votes, diar_len, smooth_frames, count - 1);
    }
}

/// Only the last segment can be tentative, and consecutive final segments
/// belong to different speakers.
pub proof fn lemma_fused_shape<D: Fn(&[u32]) -> String>(
    segments: Seq<SpeakerSegment>,
    tokens: Seq<TimedToken>,
    votes: Seq<Option<u8>>,
    diar_len: usize,
    smooth_frames: usize,
    flushed: bool,
    min_turn_ms: u64,
    frame_ms: u64,
    detokenize: D,
)
    requires
        fused(segments, tokens, votes, diar_len, smooth_frames, flushed, min_turn_ms, frame_ms, detokenize),
    ensures
        forall|k: int| 0 <= k < segments.len() - 1 ==> (#[trigger] segments[k]).is_final,
        forall|k: int| 0 <= k < segments.len() - 1 && segments[k + 1].is_final
            ==> #[trigger] segments[k].speaker != segments[k + 1].speaker,
{
    let (labeled, tail, _) = label_prefix(tokens, votes, diar_len, smooth_frames, flushed, tokens.len() as int);
    let settled = anti_flicker(labeled, min_turn_ms, frame_ms);
    let groups = runs(settled);
    lemma_runs_partition(settled, 0);
    assert forall|k: int| 0 <= k < segments.len() - 1 implies (#[trigger] segments[k]).is_final by {
        assert(k < groups.len());
    }
    assert forall|k: int| 0 <= k < segments.len() - 1 && segments[k + 1].is_final
        implies #[trigger] segments[k].speaker != segments[k + 1].speaker by {
        assert(k + 1 < groups.len());
        assert(segment_covers(segments[k], settled.subrange(groups[k].start, groups[k].end), groups[k].speaker,
            frame_ms, true, detokenize));
        assert(segment_covers(segments[k + 1], settled.subrange(groups[k + 1].start, groups[k + 1].end),
            groups[k + 1].speaker, frame_ms, true, detokenize));
    }
}

/// The decidable tokens of a prefix followed by its undecidable ones are the
/// prefix itself: with frames in order, once a token must wait, every later
/// one waits too.
proof fn lemma_label_prefix_split(
    tokens: Seq<TimedToken>,
    votes: Seq<Option<u8>>,
    diar_len: usize,
    smooth_frames: usize,
    flushed: bool,
    count: int,
)
    requires
        0 <= count <= tokens.len(),
        tokens_sorted(tokens),
    ensures
        ({
            let (labeled, tail, _) = label_prefix(tokens, votes, diar_len, smooth_frames, flushed, count);
            &&& labeled.map_values(|e: (TimedToken, u8)| e.0) + tail == tokens.take(count)
            &&& tail.len() > 0 ==> !decidable(tail[0].frame, smooth_frames, diar_len, flushed)
        }),
    decreases count,
{
    if count > 0 {
        lemma_label_prefix_split(tokens, votes, diar_len, smooth_frames, flushed, count - 1);
        let (labeled, tail, previous) = label_prefix(tokens, votes, diar_len, smooth_frames, flushed, count - 1);
        let token = tokens[count - 1];
        let before = labeled.map_values(|e: (TimedToken, u8)| e.0);
        assert(before + tail == tokens.take(count - 1));
        if decidable(token.frame, smooth_frames, diar_len, flushed) {
            if tail.len() > 0 {
                assert((before + tail)[before.len() as int] == tail[0]);
                assert(tokens.take(count - 1)[before.len() as int] == tokens[before.len() as int]);
                assert(tokens[before.len() as int].frame <= token.frame);
                assert(false);
            }
            let vote = if diar_len == 0 { None } else { votes[count - 1] };
            let speaker = voted_speaker(vote, previous);
            assert(labeled.push((token, speaker)).map_values(|e: (TimedToken, u8)| e.0) =~= before.push(token));
            assert(before.push(token) + tail =~= tokens.take(count));
        } else {
            assert(before + tail.push(token) =~= tokens.take(count));
            if tail.len() > 0 {
                assert(tail.push(token)[0] == tail[0]);
            }
        }
    }
}

/// Fusion loses and repeats no token: the final segments split the settled
/// decidable tokens into consecutive runs, and those tokens, followed by
/// the tentative segment's tokens, are all the tokens in their order.
pub proof fn lemma_fusion_keeps_every_token(
    tokens: Seq<TimedToken>,
    votes: Seq<Option<u8>>,
    diar_len: usize,
    smooth_frames: usize,
    flushed: bool,
    min_turn_ms: u64,
    frame_ms: u64,
)
    requires
        tokens_sorted(tokens),
    ensures
        ({
            let (labeled, tail, _) = label_prefix(tokens, votes, diar_len, smooth_frames, flushed, tokens.len() as int);
            let settled = anti_flicker(labeled, min_turn_ms, frame_ms);
            &&& is_run_partition(settled, runs(settled), 0)
            &&& settled.map_values(|e: (TimedToken, u8)| e.0) + tail == tokens
        }),
{
    let (labeled, tail, _) = label_prefix(tokens, votes, diar_len, smooth_frames, flushed, tokens.len() as int);
    lemma_label_prefix_split(tokens, votes, diar_len, smooth_frames, flushed, tokens.len() as int);
    lemma_anti_flicker_settles(labeled, min_turn_ms, frame_ms);
    let settled = anti_flicker(labeled, min_turn_ms, frame_ms);
    lemma_runs_partition(settled, 0);
    assert(settled.map_values(|e: (TimedToken, u8)| e.0) =~= labeled.map_values(|e: (TimedToken, u8)| e.0));
    assert(tokens.take(tokens.len() as int) =~= tokens);
}

/// The tentative tail holds exactly the tokens that cannot be decided yet:
/// every labeled token is decidable and every tail token is not, so a
/// token waits for more diarization exactly when no flush came and its
/// frame plus the smoothing width reaches past the frames pushed.
pub proof fn lemma_tail_is_undecidable(
    tokens: Seq<TimedToken>,
    votes: Seq<Option<u8>>,
    diar_len: usize,
    smooth_frames: usize,
    flushed: bool,
    count: int,
)
    requires
        0 <= count <= tokens.len(),
    ensures
        ({
            let (labeled, tail, _) = label_prefix(tokens, votes, diar_len, smooth_frames, flushed, count);
            &&& forall|m: int| 0 <= m < labeled.len()
                ==> decidable(#[trigger] labeled[m].0.frame, smooth_frames, diar_len, flushed)
            &&& forall|m: int| 0 <= m < tail.len()
                ==> !decidable(#[trigger] tail[m].frame, smooth_frames, diar_len, flushed)
        }),
    decreases count,
{
    if count > 0 {
        lemma_tail_is_undecidable(tokens, votes, diar_len, smooth_frames, flushed, count - 1);
        let (labeled, tail, previous) = label_prefix(tokens, votes, diar_len, smooth_frames, flushed, count - 1);
        let (labeled2, tail2, _) = label_prefix(tokens, votes, diar_len, smooth_frames, flushed, count);
        assert forall|m: int| 0 <= m < labeled2.len()
            implies decidable(#[trigger] labeled2[m].0.frame, smooth_frames, diar_len, flushed) by {
            if m < labeled.len() {
                assert(labeled2[m] == labeled[m]);
            }
        }
        assert forall|m: int| 0 <= m < tail2.len()
            implies !decidable(#[trigger] tail2[m].frame, smooth_frames, diar_len, flushed) by {
            if m < tail.len() {
                assert(tail2[m] == tail[m]);
            }
        }
    }
}

/// Without tokens there are no segments, as after a reset.
pub proof fn lemma_no_tokens_no_segments<D: Fn(&[u32]) -> String>(
    segments: Seq<SpeakerSegment>,
    votes: Seq<Option<u8>>,
    diar_len: usize,
    smooth_frames: usize,
    flushed: bool,
    min_turn_ms: u64,
    frame_ms: u64,
    detokenize: D,
)
    requires
        fused(segments, Seq::empty(), votes, diar_len, smooth_frames, flushed, min_turn_ms, frame_ms, detokenize),
    ensures
        segments.len() == 0,
{
    let (labeled, tail, _) = label_prefix(Seq::<TimedToken>::empty(), votes, diar_len, smooth_frames, flushed, 0);
    assert(labeled.len() == 0);
    assert(runs(anti_flicker(labeled, min_turn_ms, frame_ms)).len() == 0) by {
        lemma_anti_flicker_settles(labeled, min_turn_ms, frame_ms);
        let settled = anti_flicker(labeled, min_turn_ms, frame_ms);
        assert(runs_from(settled, 0) == Seq::<Run>::empty());
    }
}

/// Token ids of `tokens`, in order.
pub open spec fn token_ids(tokens: Seq<TimedToken>) -> Seq<u32> {
    tokens.map_values(|t: TimedToken| t.id)
}

/// `segment` spans the non-empty tokens `lo..hi`: from the first one's
/// frame to the end of the last one's, with what `detokenize` gives their
/// ids as text.
pub open spec fn segment_spans<D: Fn(&[u32]) -> String>(
    segment: SpeakerSegment,
    tokens: Seq<TimedToken>,
    lo: int,
    hi: int,
    frame_ms: u64,
    detokenize: D,
) -> bool {
    &&& 0 <= lo < hi <= tokens.len()
    &&& segment.start_ms == tokens[lo].frame * frame_ms
    &&& segment.end_ms == (tokens[hi - 1].frame + 1) * frame_ms
    &&& detokenized(detokenize, token_ids(tokens.subrange(lo, hi)), segment.text)
}

/// The fusion law, whole: the segments cut the tokens, in order and with
/// none lost or repeated, into consecutive non-empty pieces, one per
/// segment, each spanning its piece's frames with the detokenized piece as
/// text; only the last segment may be tentative; neighbouring final
/// segments differ in speaker; a tentative last segment holds exactly the
/// tokens that are not decidable yet (no flush, and the frame plus the
/// smoothing width reaches past the diarization frames) and carries the
/// last final segment's speaker, or speaker 0 if there is none.
pub proof fn lemma_fusion_law<D: Fn(&[u32]) -> String>(
    segments: Seq<SpeakerSegment>,
    tokens: Seq<TimedToken>,
    votes: Seq<Option<u8>>,
    diar_len: usize,
    smooth_frames: usize,
    flushed: bool,
    min_turn_ms: u64,
    frame_ms: u64,
    detokenize: D,
)
    requires
        tokens_sorted(tokens),
        fused(segments, tokens, votes, diar_len, smooth_frames, flushed, min_turn_ms, frame_ms, detokenize),
    ensures
        exists|bounds: Seq<int>| {
            &&& bounds.len() == segments.len() + 1
            &&& bounds[0] == 0
            &&& bounds.last() == tokens.len()
            &&& forall|k: int| 0 <= k < segments.len()
                ==> segment_spans(#[trigger] segments[k], tokens, bounds[k], bounds[k + 1], frame_ms, detokenize)
            &&& forall|k: int| 0 <= k < segments.len() - 1 ==> (#[trigger] segments[k]).is_final
            &&& forall|k: int| 0 <= k < segments.len() - 1 && segments[k + 1].is_final
                ==> #[trigger] segments[k].speaker != segments[k + 1].speaker
            &&& forall|m: int| 0 <= m < tokens.len() ==> (!decidable(#[trigger] tokens[m].frame, smooth_frames, diar_len, flushed)
                <==> (segments.len() > 0 && !segments.last().is_final && bounds[segments.len() - 1] <= m))
            &&& segments.len() > 0 && !segments.last().is_final ==> segments.last().speaker == if segments.len() >= 2 {
                segments[segments.len() - 2].speaker
            } else {
                0u8
            }
        },
{
    let (labeled, tail, _) = label_prefix(tokens, votes, diar_len, smooth_frames, flushed, tokens.len() as int);
    let settled = anti_flicker(labeled, min_turn_ms, frame_ms);
    let groups = runs(settled);
    let n_settled = settled.len() as int;
    let n_groups = groups.len() as int;
    let last_speaker = if groups.len() > 0 { groups.last().speaker } else { 0u8 };
    lemma_fusion_keeps_every_token(tokens, votes, diar_len, smooth_frames, flushed, min_turn_ms, frame_ms);
    lemma_fused_shape(segments, tokens, votes, diar_len, smooth_frames, flushed, min_turn_ms, frame_ms, detokenize);
    lemma_tail_is_undecidable(tokens, votes, diar_len, smooth_frames, flushed, tokens.len() as int);
    lemma_anti_flicker_settles(labeled, min_turn_ms, frame_ms);
    let heads = settled.map_values(|e: (TimedToken, u8)| e.0);
    assert(heads + tail == tokens);
    assert forall|i: int| 0 <= i < n_settled implies #[trigger] settled[i].0 == tokens[i] by {
        assert(heads[i] == settled[i].0);
        assert((heads + tail)[i] == heads[i]);
    }
    assert forall|i: int| 0 <= i < tail.len() implies #[trigger] tail[i] == tokens[n_settled + i] by {
        assert((heads + tail)[n_settled + i] == tail[i]);
    }
    let bounds = Seq::new((segments.len() + 1) as nat, |k: int| if k < n_groups {
        groups[k].start
    } else if k == n_groups {
        n_settled
    } else {
        tokens.len() as int
    });
    assert(bounds[0] == 0) by {
        if n_groups == 0 {
            assert(n_settled == 0);
        }
    }
    assert forall|k: int| 0 <= k < segments.len() implies segment_spans(
        #[trigger] segments[k],
        tokens,
        bounds[k],
        bounds[k + 1],
        frame_ms,
        detokenize,
    ) by {
        if k < n_groups {
            let run = groups[k];
            assert(bounds[k + 1] == run.end) by {
                if k + 1 < n_groups {
                    assert(groups[k].end == groups[k + 1].start);
                }
            }
            let entries = settled.subrange(run.start, run.end);
            assert(segment_covers(segments[k], entries, run.speaker, frame_ms, true, detokenize));
            assert(entries[0].0 == tokens[run.start]);
            assert(entries.last().0 == tokens[run.end - 1]);
            assert(entry_ids(entries) =~= token_ids(tokens.subrange(run.start, run.end)));
        } else {
            assert(tail.len() > 0);
            let entries = with_speaker(tail, last_speaker);
            assert(segment_covers(segments[k], entries, last_speaker, frame_ms, false, detokenize));
            assert(entries[0].0 == tokens[n_settled]);
            assert(entries.last().0 == tokens[tokens.len() - 1]);
            assert(entry_ids(entries) =~= token_ids(tokens.subrange(n_settled, tokens.len() as int)));
        }
    }
    assert forall|m: int| 0 <= m < tokens.len() implies (!decidable(
        #[trigger] tokens[m].frame,
        smooth_frames,
        diar_len,
        flushed,
    ) <==> (segments.len() > 0 && !segments.last().is_final && bounds[segments.len() - 1] <= m)) by {
        if tail.len() > 0 {
            assert(segment_covers(segments[n_groups], with_speaker(tail, last_speaker), last_speaker, frame_ms, false,
                detokenize));
        } else if n_groups > 0 {
            assert(segment_covers(segments[n_groups - 1], settled.subrange(groups[n_groups - 1].start,
                groups[n_groups - 1].end), groups[n_groups - 1].speaker, frame_ms, true, detokenize));
        }
        if m < n_settled {
            assert(labeled[m].0 == tokens[m]);
        } else {
            assert(tail[m - n_settled] == tokens[m]);
        }
    }
    if segments.len() > 0 && !segments.last().is_final {
        if tail.len() == 0 {
            assert(segment_covers(segments[n_groups - 1], settled.subrange(groups[n_groups - 1].start,
                groups[n_groups - 1].end), groups[n_groups - 1].speaker, frame_ms, true, detokenize));
        }
        assert(segment_covers(segments[n_groups], with_speaker(tail, last_speaker), last_speaker, frame_ms, false,
            detokenize));
        if n_groups > 0 {
            assert(segment_covers(segments[n_groups - 1], settled.subrange(groups[n_groups - 1].start,
                groups[n_groups - 1].end), groups[n_groups - 1].speaker, frame_ms, true, detokenize));
        }
    }
    assert(bounds.last() == tokens.len()) by {
        if tail.len() == 0 {
            assert(n_settled == tokens.len());
        }
    }
}

/// The diarization frames `lo..=hi` that a window vote sees.
pub open spec fn window_frames<F>(frames: Seq<F>, lo: int, hi: int) -> Seq<F> {
    frames.subrange(lo, hi + 1)
}

/// `answer` is what `vote` may give for the frames `lo..=hi` of `frames`.
pub open spec fn window_answer<F, V: Fn(Vec<F>) -> Option<u8>>(
    vote: V,
    frames: Seq<F>,
    lo: int,
    hi: int,
    answer: Option<u8>,
) -> bool {
    exists|window: Vec<F>|
        #![trigger call_ensures(vote, (window,), answer)]
        window@ == window_frames(frames, lo, hi) && call_ensures(vote, (window,), answer)
}

/// `votes[k]` is what `vote` may answer for token `k`'s window of `frames`,
/// for every token that is decided against at least one frame.
pub open spec fn window_votes_answered<F, V: Fn(Vec<F>) -> Option<u8>>(
    vote: V,
    tokens: Seq<TimedToken>,
    frames: Seq<F>,
    votes: Seq<Option<u8>>,
    smooth_frames: usize,
    flushed: bool,
) -> bool {
    &&& votes.len() == tokens.len()
    &&& forall|k: int|
        0 <= k < tokens.len() && frames.len() > 0 && decidable(tokens[k].frame, smooth_frames, frames.len() as usize, flushed)
            ==> window_answer(
            vote,
            frames,
            window_bounds(tokens[k].frame, smooth_frames, frames.len() as usize).0,
            window_bounds(tokens[k].frame, smooth_frames, frames.len() as usize).1,
            #[trigger] votes[k],
        )
}

/// Streaming ASR/diarization fusion state: the raw token and diarization
/// frame streams and whether they were flushed, recomputed into segments on
/// every call.
pub struct Fusion<F> {
    smooth_frames: usize,
    min_turn_ms: u64,
    frame_ms: u64,
    tokens: Vec<TimedToken>,
    diar: Vec<F>,
    flushed: bool,
}

impl<F> Fusion<F> {
    #[verifier::type_invariant]
    spec fn wf(self) -> bool {
        &&& tokens_sorted(self.tokens@)
        &&& tokens_fit(self.tokens@, self.smooth_frames, self.frame_ms)
    }

    /// Tokens pushed since creation or the last reset, in order.
    pub closed spec fn tokens_view(&self) -> Seq<TimedToken> {
        self.tokens@
    }

    /// Diarization frames pushed since creation or the last reset, in order.
    pub closed spec fn diar_view(&self) -> Seq<F> {
        self.diar@
    }

    /// Whether every token is decidable.
    pub closed spec fn flushed_view(&self) -> bool {
        self.flushed
    }

    /// Half-width, in frames, of each token's smoothing window.
    pub closed spec fn smooth_frames_view(&self) -> usize {
        self.smooth_frames
    }

    /// Final segments shorter than this merge into a neighbour.
    pub closed spec fn min_turn_ms_view(&self) -> u64 {
        self.min_turn_ms
    }

    /// Duration of one frame in milliseconds.
    pub closed spec fn frame_ms_view(&self) -> u64 {
        self.frame_ms
    }

    /// Whether the tokens pushed so far, in order, are well placed.
    pub open spec fn accepts_tokens(&self, tokens: Seq<TimedToken>) -> bool {
        &&& tokens_sorted(self.tokens_view() + tokens)
        &&& tokens_fit(self.tokens_view() + tokens, self.smooth_frames_view(), self.frame_ms_view())
    }
}

impl<F: Copy> Fusion<F> {
    /// An empty fusion state with the given smoothing half-width, minimum
    /// turn and frame duration.
    pub fn new(smooth_frames: usize, min_turn_ms: u64, frame_ms: u64) -> (f: Self)
        ensures
            f.tokens_view() == Seq::<TimedToken>::empty(),
            f.diar_view() == Seq::<F>::empty(),
            !f.flushed_view(),
            f.smooth_frames_view() == smooth_frames,
            f.min_turn_ms_view() == min_turn_ms,
            f.frame_ms_view() == frame_ms,
    {
        let f = Fusion { smooth_frames, min_turn_ms, frame_ms, tokens: Vec::new(), diar: Vec::new(), flushed: false };
        assert(f.tokens@ =~= Seq::<TimedToken>::empty());
        f
    }

    /// Whether `tokens` may be pushed: after the tokens pushed so far their
    /// frames keep non-decreasing order, and every smoothing window and end
    /// time fits in `u64`.
    pub fn accepts(&self, tokens: &[TimedToken]) -> (r: bool)
        ensures
            r == self.accepts_tokens(tokens@),
    {
        proof { use_type_invariant(self); }
        let ghost n = self.tokens@.len();
        let ghost all = self.tokens@ + tokens@;
        let count = self.tokens.len();
        let mut previous: Option<u64> = if count > 0 { Some(self.tokens[count - 1].frame) } else { None };
        let mut i: usize = 0;
        assert(all.take(n as int) =~= self.tokens@);
        while i < tokens.len()
            invariant
                i <= tokens@.len(),
                n == self.tokens@.len(),
                all == self.tokens@ + tokens@,
                previous == (if n + i > 0 { Some(all[n + i - 1].frame) } else { None::<u64> }),
                tokens_sorted(all.take(n + i)),
                tokens_fit(all.take(n + i), self.smooth_frames, self.frame_ms),
            decreases tokens.len() - i,
        {
            let token = tokens[i];
            assert(all[n + i] == token);
            let in_order = match previous {
                Some(p) => p <= token.frame,
                None => true,
            };
            if !in_order {
                assert(!tokens_sorted(all)) by {
                    assert(all[n + i - 1].frame > all[n + i].frame);
                }
                return false;
            }
            let fits = match token.frame.checked_add(self.smooth_frames as u64) {
                None => false,
                Some(_) => match token.frame.checked_add(1) {
                    None => false,
                    Some(end) => end.checked_mul(self.frame_ms).is_some(),
                },
            };
            if !fits {
                assert(!tokens_fit(all, self.smooth_frames, self.frame_ms)) by {
                    assert(all[n + i] == token);
                }
                return false;
            }
            proof {
                let before = all.take(n + i);
                let after = all.take(n + i + 1);
                assert(after == before.push(token));
                assert forall|a: int, b: int| 0 <= a <= b < after.len() implies #[trigger] after[a].frame
                    <= #[trigger] after[b].frame by {
                    if b == n + i && a < b {
                        assert(before[a].frame <= before[n + i - 1].frame);
                    }
                }
                assert forall|k: int| 0 <= k < after.len() implies #[trigger] after[k].frame + self.smooth_frames
                    <= u64::MAX by {
                    if k < n + i {
                        assert(after[k] == before[k]);
                    }
                }
                assert forall|k: int| 0 <= k < after.len() implies frame_fits(#[trigger] after[k].frame, self.frame_ms) by {
                    if k < n + i {
                        assert(after[k] == before[k]);
                    }
                }
            }
            previous = Some(token.frame);
            i += 1;
        }
        assert(all.take(n + i) =~= all);
        true
    }

    /// Appends ASR tokens. Tokens are pushed in non-decreasing frame order,
    /// as the streaming decoder produces them.
    pub fn push_tokens(&mut self, tokens: &[TimedToken])
        requires
            old(self).accepts_tokens(tokens@),
        ensures
            final(self).tokens_view() == old(self).tokens_view() + tokens@,
            final(self).diar_view() == old(self).diar_view(),
            final(self).flushed_view() == old(self).flushed_view(),
            final(self).smooth_frames_view() == old(self).smooth_frames_view(),
            final(self).min_turn_ms_view() == old(self).min_turn_ms_view(),
            final(self).frame_ms_view() == old(self).frame_ms_view(),
    {
        let mut all = copy_range(self.tokens.as_slice(), 0, self.tokens.len());
        proof { assert(self.tokens@.subrange(0, self.tokens@.len() as int) =~= self.tokens@); }
        crate::seqs::extend_copied(&mut all, tokens);
        self.tokens = all;
    }

    /// Appends diarization frames, in frame order.
    pub fn push_diar_frames(&mut self, frames: &[F])
        ensures
            final(self).diar_view() == old(self).diar_view() + frames@,
            final(self).tokens_view() == old(self).tokens_view(),
            final(self).flushed_view() == old(self).flushed_view(),
            final(self).smooth_frames_view() == old(self).smooth_frames_view(),
            final(self).min_turn_ms_view() == old(self).min_turn_ms_view(),
            final(self).frame_ms_view() == old(self).frame_ms_view(),
    {
        proof { use_type_invariant(&*self); }
        let mut all = copy_range(self.diar.as_slice(), 0, self.diar.len());
        proof { assert(self.diar@.subrange(0, self.diar@.len() as int) =~= self.diar@); }
        crate::seqs::extend_copied(&mut all, frames);
        self.diar = all;
    }

    /// Makes every current and future token decidable against whatever
    /// diarization frames exist when segments are computed; pushing stays
    /// possible.
    pub fn flush(&mut self)
        ensures
            final(self).flushed_view(),
            final(self).tokens_view() == old(self).tokens_view(),
            final(self).diar_view() == old(self).diar_view(),
            final(self).smooth_frames_view() == old(self).smooth_frames_view(),
            final(self).min_turn_ms_view() == old(self).min_turn_ms_view(),
            final(self).frame_ms_view() == old(self).frame_ms_view(),
    {
        proof { use_type_invariant(&*self); }
        self.flushed = true;
    }

    /// Clears tokens, frames and the flushed flag.
    pub fn reset(&mut self)
        ensures
            final(self).tokens_view() == Seq::<TimedToken>::empty(),
            final(self).diar_view() == Seq::<F>::empty(),
            !final(self).flushed_view(),
            final(self).smooth_frames_view() == old(self).smooth_frames_view(),
            final(self).min_turn_ms_view() == old(self).min_turn_ms_view(),
            final(self).frame_ms_view() == old(self).frame_ms_view(),
    {
        *self = Fusion::new(self.smooth_frames, self.min_turn_ms, self.frame_ms);
    }

    /// Recomputes the full segment list from the raw streams: `vote` gives
    /// the speaker, if any, supported by a token's window of diarization
    /// frames, and `detokenize` is called once per output segment with its
    /// token ids in frame order.
    pub fn segments<V: Fn(Vec<F>) -> Option<u8>, D: Fn(&[u32]) -> String>(&self, vote: V, detokenize: D) -> (r: Vec<
        SpeakerSegment,
    >)
        requires
            forall|window: Vec<F>| call_requires(vote, (window,)),
            forall|slice: &[u32]| call_requires(detokenize, (slice,)),
        ensures
            exists|votes: Seq<Option<u8>>| {
                &&& window_votes_answered(
                    vote,
                    self.tokens_view(),
                    self.diar_view(),
                    votes,
                    self.smooth_frames_view(),
                    self.flushed_view(),
                )
                &&& fused(
                    r@,
                    self.tokens_view(),
                    votes,
                    self.diar_view().len() as usize,
                    self.smooth_frames_view(),
                    self.flushed_view(),
                    self.min_turn_ms_view(),
                    self.frame_ms_view(),
                    detokenize,
                )
            },
    {
        proof { use_type_invariant(self); }
        let frames = self.diar.as_slice();
        let diar_len = frames.len();
        let vote_ref = &vote;
        let window_vote = |lo: usize, hi: usize| -> (v: Option<u8>)
            requires
                lo <= hi < frames@.len(),
                forall|window: Vec<F>| call_requires(*vote_ref, (window,)),
            ensures
                window_answer(*vote_ref, frames@, lo as int, hi as int, v),
        {
            let window = copy_range(frames, lo, hi + 1);
            let v = vote_ref(window);
            assert(window@ == window_frames(frames@, lo as int, hi as int));
            v
        };
        let r = fuse_segments(
            self.tokens.as_slice(),
            diar_len,
            self.flushed,
            self.smooth_frames,
            self.min_turn_ms,
            self.frame_ms,
            window_vote,
            detokenize,
        );
        proof {
            let votes = choose|votes: Seq<Option<u8>>| {
                &&& votes_answered(window_vote, self.tokens@, votes, diar_len, self.smooth_frames, self.flushed)
                &&& fused(r@, self.tokens@, votes, diar_len, self.smooth_frames, self.flushed, self.min_turn_ms,
                    self.frame_ms, detokenize)
            };
            assert forall|k: int|
                0 <= k < self.tokens@.len() && self.diar@.len() > 0 && decidable(
                    self.tokens@[k].frame,
                    self.smooth_frames,
                    self.diar@.len() as usize,
                    self.flushed,
                ) implies window_answer(
                vote,
                self.diar@,
                window_bounds(self.tokens@[k].frame, self.smooth_frames, self.diar@.len() as usize).0,
                window_bounds(self.tokens@[k].frame, self.smooth_frames, self.diar@.len() as usize).1,
                #[trigger] votes[k],
            ) by {
                let bounds = window_bounds(self.tokens@[k].frame, self.smooth_frames, diar_len);
                assert(call_ensures(window_vote, (bounds.0 as usize, bounds.1 as usize), votes[k]));
            }
            assert(window_votes_answered(vote, self.tokens@, self.diar@, votes, self.smooth_frames, self.flushed));
            assert(self.diar_view().len() as usize == diar_len);
            assert(fused(r@, self.tokens_view(), votes, self.diar_view().len() as usize, self.smooth_frames_view(),
                self.flushed_view(), self.min_turn_ms_view(), self.frame_ms_view(), detokenize));
            assert(window_votes_answered(vote, self.tokens_view(), self.diar_view(), votes, self.smooth_frames_view(),
                self.flushed_view()));
        }
        r
    }
}

/// The labeling reads a token's vote only where the token is decided
/// against at least one diarization frame.
proof fn lemma_label_prefix_reads_decided_votes(
    tokens: Seq<TimedToken>,
    votes1: Seq<Option<u8>>,
    votes2: Seq<Option<u8>>,
    diar_len: usize,
    smooth_frames: usize,
    flushed: bool,
    count: int,
)
    requires
        count <= tokens.len(),
        forall|k: int| 0 <= k < count && diar_len > 0 && decidable(tokens[k].frame, smooth_frames, diar_len, flushed)
            ==> #[trigger] votes1[k] == votes2[k],
    ensures
        label_prefix(tokens, votes1, diar_len, smooth_frames, flushed, count) == label_prefix(
            tokens,
            votes2,
            diar_len,
            smooth_frames,
            flushed,
            count,
        ),
    decreases count,
{
    if count > 0 {
        lemma_label_prefix_reads_decided_votes(tokens, votes1, votes2, diar_len, smooth_frames, flushed, count - 1);
    }
}

/// Recomputing is repeatable: where the vote and the detokenizer answer
/// equal inputs alike, two recomputations of the segments of the same
/// token and diarization streams (as two calls of `Fusion::segments` on an
/// unchanged fusion) give equal segments.
pub proof fn lemma_segments_repeatable<F, V: Fn(Vec<F>) -> Option<u8>, D: Fn(&[u32]) -> String>(
    vote: V,
    detokenize: D,
    tokens: Seq<TimedToken>,
    frames: Seq<F>,
    smooth_frames: usize,
    flushed: bool,
    min_turn_ms: u64,
    frame_ms: u64,
    votes1: Seq<Option<u8>>,
    votes2: Seq<Option<u8>>,
    segments1: Seq<SpeakerSegment>,
    segments2: Seq<SpeakerSegment>,
)
    requires
        forall|w1: Vec<F>, w2: Vec<F>, a1: Option<u8>, a2: Option<u8>|
            w1@ == w2@ && #[trigger] call_ensures(vote, (w1,), a1) && #[trigger] call_ensures(vote, (w2,), a2) ==> a1 == a2,
        forall|x: &[u32], y: &[u32], t1: String, t2: String|
            x@ == y@ && #[trigger] call_ensures(detokenize, (x,), t1) && #[trigger] call_ensures(detokenize, (y,), t2)
                ==> t1 == t2,
        window_votes_answered(vote, tokens, frames, votes1, smooth_frames, flushed),
        window_votes_answered(vote, tokens, frames, votes2, smooth_frames, flushed),
        fused(segments1, tokens, votes1, frames.len() as usize, smooth_frames, flushed, min_turn_ms, frame_ms, detokenize),
        fused(segments2, tokens, votes2, frames.len() as usize, smooth_frames, flushed, min_turn_ms, frame_ms, detokenize),
    ensures
        segments1 == segments2,
{
    let diar_len = frames.len() as usize;
    assert forall|k: int| 0 <= k < tokens.len() && diar_len > 0 && decidable(tokens[k].frame, smooth_frames, diar_len, flushed)
        implies #[trigger] votes1[k] == votes2[k] by {
        let (lo, hi) = window_bounds(tokens[k].frame, smooth_frames, diar_len);
        assert(window_answer(vote, frames, lo, hi, votes1[k]));
        assert(window_answer(vote, frames, lo, hi, votes2[k]));
        let w1 = choose|w: Vec<F>| w@ == window_frames(frames, lo, hi) && call_ensures(vote, (w,), votes1[k]);
        let w2 = choose|w: Vec<F>| w@ == window_frames(frames, lo, hi) && call_ensures(vote, (w,), votes2[k]);
        assert(call_ensures(vote, (w1,), votes1[k]) && call_ensures(vote, (w2,), votes2[k]));
    }
    lemma_label_prefix_reads_decided_votes(tokens, votes1, votes2, diar_len, smooth_frames, flushed, tokens.len() as int);
    let (labeled, tail, _) = label_prefix(tokens, votes1, diar_len, smooth_frames, flushed, tokens.len() as int);
    let settled = anti_flicker(labeled, min_turn_ms, frame_ms);
    let groups = runs(settled);
    let last_speaker = if groups.len() > 0 { groups.last().speaker } else { 0u8 };
    assert forall|k: int| 0 <= k < segments1.len() implies #[trigger] segments1[k] == segments2[k] by {
        let (entries, speaker, is_final) = if k < groups.len() {
            (settled.subrange(groups[k].start, groups[k].end), groups[k].speaker, true)
        } else {
            (with_speaker(tail, last_speaker), last_speaker, false)
        };
        assert(segment_covers(segments1[k], entries, speaker, frame_ms, is_final, detokenize));
        assert(segment_covers(segments2[k], entries, speaker, frame_ms, is_final, detokenize));
        let ids = entry_ids(entries);
        let x = choose|x: &[u32]| x@ == ids && call_ensures(detokenize, (x,), segments1[k].text);
        let y = choose|y: &[u32]| y@ == ids && call_ensures(detokenize, (y,), segments2[k].text);
        assert(call_ensures(detokenize, (x,), segments1[k].text) && call_ensures(detokenize, (y,), segments2[k].text));
        assert(segments1[k].text == segments2[k].text);
    }
    assert(segments1 =~= segments2);
}

/// The vote for a decided token sees its whole smoothing window: every
/// diarization frame from `min(max(frame - smooth_frames, 0), last)` to
/// `min(frame + smooth_frames, last)`, inclusive and in order, where `last`
/// is the last frame pushed.
pub proof fn lemma_vote_sees_whole_window<F, V: Fn(Vec<F>) -> Option<u8>>(
    vote: V,
    tokens: Seq<TimedToken>,
    frames: Seq<F>,
    votes: Seq<Option<u8>>,
    smooth_frames: usize,
    flushed: bool,
    k: int,
)
    requires
        window_votes_answered(vote, tokens, frames, votes, smooth_frames, flushed),
        0 <= k < tokens.len(),
        0 < frames.len() <= usize::MAX,
        decidable(tokens[k].frame, smooth_frames, frames.len() as usize, flushed),
    ensures
        exists|window: Vec<F>| {
            let frame = tokens[k].frame as int;
            let last = frames.len() - 1;
            let below = if frame >= smooth_frames { frame - smooth_frames } else { 0 };
            let lo = if below <= last { below } else { last };
            let hi = if frame + smooth_frames <= last { frame + smooth_frames } else { last };
            &&& #[trigger] call_ensures(vote, (window,), votes[k])
            &&& window@.len() == hi - lo + 1
            &&& forall|m: int| 0 <= m < window@.len() ==> #[trigger] window@[m] == frames[lo + m]
        },
{
    let (lo, hi) = window_bounds(tokens[k].frame, smooth_frames, frames.len() as usize);
    assert(window_answer(vote, frames, lo, hi, votes[k]));
    let window = choose|w: Vec<F>| w@ == window_frames(frames, lo, hi) && call_ensures(vote, (w,), votes[k]);
    assert(call_ensures(vote, (window,), votes[k]));
    assert(0 <= lo <= hi < frames.len());
    assert(window@.len() == hi - lo + 1);
}

} // verus!
