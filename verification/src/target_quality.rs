//! Per-chunk quantizer search.
//!
//! A search probes a chunk at a handful of quantizers and picks the one whose
//! score lands closest to a target. Scores and the target are integers in one
//! fixed-point unit that the caller chooses (thousandths of a point, say); the
//! search only compares and interpolates them.
//!
//! The search is a state machine. [`QuantizerSearch::next_action`] says which
//! quantizer to probe next, or that the search is over and which quantizer it
//! settled on; [`QuantizerSearch::record`] takes the score that the probe
//! produced. Running the probe is the caller's business.

use vstd::prelude::*;
use crate::chunk::{chunk_name, output_extension_spec, Chunk, ChunkModel, Encoder, NAME_WIDTH};
use crate::util::{
    append_decimal,
    append_decimal_u64,
    append_padded_decimal,
    decimal_text,
    lemma_filter_keeps_none,
    lemma_filter_one_more,
    lemma_filter_remove_first,
    lemma_filter_remove_other,
    lemma_move_keeps,
    lemma_nothing_there,
};

verus! {

/// Optional features of the perceptual metric that a probe may switch on.
#[derive(Debug, Clone, Copy, PartialEq, Eq, Hash, Structural)]
pub enum VmafFeature {
    Default,
    Weighted,
    Neg,
    Motionless,
}

/// Why a quantizer search stopped.
///
/// `NoSkip` stands for a search that ran until its prediction repeated a
/// quantizer it had already probed.
#[derive(Debug, Clone, Copy, PartialEq, Eq, Structural)]
pub enum SkipProbingReason {
    QuantizerTooHigh,
    QuantizerTooLow,
    WithinTolerance,
    ProbeLimitReached,
    NoSkip,
}

/// One probe: the quantizer that was tried and the score it reached.
#[derive(Debug, Clone, Copy, PartialEq, Eq, Structural)]
pub struct Probe {
    pub quantizer: u32,
    pub score: u64,
}

/// What the caller of a search has to do next.
#[derive(Debug, Clone, Copy, PartialEq, Eq, Structural)]
pub enum SearchAction {
    /// Encode a probe at this quantizer and report its score.
    Probe(u32),
    /// The search is over; encode the chunk at this quantizer.
    Finish(u32),
}

/// The probing rate that is actually used for a requested one.
pub open spec fn adapted_probing_rate(rate: usize) -> usize {
    if 1 <= rate <= 4 {
        rate
    } else {
        1
    }
}

/// Keeps a probing rate of 1 to 4 and replaces any other by 1.
pub fn adapt_probing_rate(rate: usize) -> (adapted: usize)
    ensures
        adapted == adapted_probing_rate(rate),
        1 <= adapted <= 4,
{
    if 1 <= rate && rate <= 4 {
        rate
    } else {
        1
    }
}

/// Absolute difference between a score and the target.
pub open spec fn score_distance(score: int, target: int) -> int {
    if score >= target {
        score - target
    } else {
        target - score
    }
}

/// A score is within tolerance when it misses the target by less than one
/// percent of the target.
pub open spec fn within_tolerance_spec(score: int, target: int) -> bool {
    target > 0 && score_distance(score, target) * 100 < target
}

/// Midpoint of the bounds, rounded down.
pub open spec fn midpoint(lower: int, upper: int) -> int {
    (lower + upper) / 2
}

/// `value` limited to the range from `lower` to `upper`.
pub open spec fn clamped(value: int, lower: int, upper: int) -> int {
    if value < lower {
        lower
    } else if value > upper {
        upper
    } else {
        value
    }
}

/// The quantizer that the straight line through two probes assigns to the
/// target score, rounded to the nearest integer (halves go up).
///
/// The line is only read between the two scores: the lower score included,
/// the higher one excluded. Outside of that, and for two equal scores, there
/// is no estimate.
pub open spec fn linear_estimate(a: Probe, b: Probe, target: int) -> Option<int> {
    let low = if a.score <= b.score { a } else { b };
    let high = if a.score <= b.score { b } else { a };
    let span = high.score - low.score;
    let offset = target - low.score;
    if low.score <= target < high.score {
        Some(
            (2 * (low.quantizer * (span - offset) + high.quantizer * offset) + span) / (2
                * span),
        )
    } else {
        None
    }
}

/// The estimate that a prediction clamps: none for fewer than two probes, the
/// straight line for two, and for three or more whatever the caller sampled
/// from its curve through the probes.
pub open spec fn estimate(history: Seq<Probe>, target: int, sampled: Option<int>) -> Option<int> {
    if history.len() < 2 {
        None
    } else if history.len() == 2 {
        linear_estimate(history[0], history[1], target)
    } else {
        sampled
    }
}

/// The next quantizer to probe: the estimate clamped to the bounds, or the
/// midpoint of the bounds where there is no estimate.
pub open spec fn predicted_quantizer(
    lower: int,
    upper: int,
    history: Seq<Probe>,
    target: int,
    sampled: Option<int>,
) -> int {
    match estimate(history, target, sampled) {
        Some(value) => clamped(value, lower, upper),
        None => midpoint(lower, upper),
    }
}

/// Whether some probe of the history tried this quantizer.
pub open spec fn probed(history: Seq<Probe>, quantizer: int) -> bool {
    exists|i: int| 0 <= i < history.len() && (#[trigger] history[i]).quantizer == quantizer
}

/// Whether some probe of the history landed within tolerance.
pub open spec fn any_within_tolerance(history: Seq<Probe>, target: int) -> bool {
    exists|i: int|
        0 <= i < history.len() && within_tolerance_spec((#[trigger] history[i]).score as int, target)
}

/// The rule for the quantizer that a finished search settles on.
///
/// Where some probe is within tolerance, it is the highest quantizer among
/// the probes within tolerance. Otherwise it is the quantizer of the probe
/// nearest to the target, the higher quantizer winning between equally near
/// probes.
pub open spec fn is_final_choice(history: Seq<Probe>, target: int, quantizer: int) -> bool {
    if any_within_tolerance(history, target) {
        &&& exists|i: int|
            0 <= i < history.len() && (#[trigger] history[i]).quantizer == quantizer
                && within_tolerance_spec(history[i].score as int, target)
        &&& forall|j: int|
            0 <= j < history.len() && within_tolerance_spec((#[trigger] history[j]).score as int, target)
                ==> history[j].quantizer <= quantizer
    } else {
        exists|i: int|
            0 <= i < history.len() && (#[trigger] history[i]).quantizer == quantizer && forall|
                j: int,
            |
                0 <= j < history.len() ==> score_distance(history[i].score as int, target)
                    < score_distance((#[trigger] history[j]).score as int, target) || (
                score_distance(history[i].score as int, target) == score_distance(
                    history[j].score as int,
                    target,
                ) && history[j].quantizer <= quantizer)
    }
}

/// `a` is chosen over `b`, or as readily as `b`, by the rule of
/// [`is_final_choice`].
pub open spec fn preferred(a: Probe, b: Probe, target: int) -> bool {
    let a_within = within_tolerance_spec(a.score as int, target);
    let b_within = within_tolerance_spec(b.score as int, target);
    if a_within && b_within {
        a.quantizer >= b.quantizer
    } else if a_within {
        true
    } else if b_within {
        false
    } else {
        score_distance(a.score as int, target) < score_distance(b.score as int, target) || (
        score_distance(a.score as int, target) == score_distance(b.score as int, target)
            && a.quantizer >= b.quantizer)
    }
}

/// Tells whether a score is within one percent of the target.
pub fn within_tolerance(score: u64, target: u64) -> (within: bool)
    ensures
        within == within_tolerance_spec(score as int, target as int),
{
    let distance: u64 = if score >= target {
        score - target
    } else {
        target - score
    };
    target > 0 && (distance as u128) * 100 < (target as u128)
}

/// Tells whether the history holds a probe at this quantizer.
pub fn already_probed(history: &Vec<Probe>, quantizer: u32) -> (found: bool)
    ensures
        found == probed(history@, quantizer as int),
{
    let mut i: usize = 0;
    while i < history.len()
        invariant
            i <= history.len(),
            forall|j: int| 0 <= j < i ==> (#[trigger] history@[j]).quantizer != quantizer,
        decreases history.len() - i,
    {
        if history[i].quantizer == quantizer {
            return true;
        }
        i += 1;
    }
    false
}

/// Reads the straight line through two probes at the target score.
pub fn interpolate_linear(a: Probe, b: Probe, target: u64) -> (value: Option<u128>)
    ensures
        match value {
            Some(v) => linear_estimate(a, b, target as int) == Some(v as int),
            None => linear_estimate(a, b, target as int) is None,
        },
{
    let low = if a.score <= b.score { a } else { b };
    let high = if a.score <= b.score { b } else { a };
    if low.score <= target && target < high.score {
        let span: u128 = (high.score - low.score) as u128;
        let offset: u128 = (target - low.score) as u128;
        let rest: u128 = span - offset;
        let low_q: u128 = low.quantizer as u128;
        let high_q: u128 = high.quantizer as u128;
        assert(low_q * rest <= 0xffff_ffff * 0xffff_ffff_ffff_ffff) by (nonlinear_arith)
            requires
                0 <= low_q <= 0xffff_ffff,
                0 <= rest <= 0xffff_ffff_ffff_ffff,
        ;
        assert(high_q * offset <= 0xffff_ffff * 0xffff_ffff_ffff_ffff) by (nonlinear_arith)
            requires
                0 <= high_q <= 0xffff_ffff,
                0 <= offset <= 0xffff_ffff_ffff_ffff,
        ;
        let weighted: u128 = low_q * rest + high_q * offset;
        Some((2 * weighted + span) / (2 * span))
    } else {
        None
    }
}

/// Predicts the next quantizer to probe.
///
/// With fewer than two probes this is the midpoint of the bounds. With two it
/// is read off the straight line through them. With three or more the caller
/// fits a curve through the probes, samples it at the target and passes the
/// rounded sample in as `sampled` (`None` where the curve cannot be sampled
/// there). An estimate is clamped to the bounds, which have to be in order
/// for that; without an estimate the midpoint is used.
pub fn predict_quantizer(
    lower: u32,
    upper: u32,
    history: &Vec<Probe>,
    target: u64,
    sampled: Option<u32>,
) -> (quantizer: u32)
    requires
        history@.len() >= 2 ==> lower <= upper,
    ensures
        quantizer == predicted_quantizer(
            lower as int,
            upper as int,
            history@,
            target as int,
            match sampled {
                Some(s) => Some(s as int),
                None => None,
            },
        ),
        lower <= upper ==> lower <= quantizer <= upper,
{
    let middle: u32 = ((lower as u64 + upper as u64) / 2) as u32;
    if history.len() < 2 {
        return middle;
    }
    let guess: Option<u128> = if history.len() == 2 {
        interpolate_linear(history[0], history[1], target)
    } else {
        match sampled {
            Some(s) => Some(s as u128),
            None => None,
        }
    };
    match guess {
        Some(value) => {
            if value < lower as u128 {
                lower
            } else if value > upper as u128 {
                upper
            } else {
                value as u32
            }
        },
        None => middle,
    }
}

/// Picks the quantizer that a search over this history settles on: `None` for
/// an empty history, else the one quantizer that [`is_final_choice`] admits.
pub fn final_quantizer(history: &Vec<Probe>, target: u64) -> (choice: Option<u32>)
    ensures
        choice is None <==> history@.len() == 0,
        choice matches Some(q) ==> is_final_choice(history@, target as int, q as int),
{
    if history.len() == 0 {
        return None;
    }
    let mut best: usize = 0;
    let mut i: usize = 1;
    while i < history.len()
        invariant
            1 <= i <= history.len(),
            best < i,
            forall|j: int| 0 <= j < i ==> preferred(history@[best as int], #[trigger] history@[j], target as int),
        decreases history.len() - i,
    {
        let candidate = history[i];
        let current = history[best];
        let candidate_within = within_tolerance(candidate.score, target);
        let current_within = within_tolerance(current.score, target);
        let candidate_distance: u64 = if candidate.score >= target {
            candidate.score - target
        } else {
            target - candidate.score
        };
        let current_distance: u64 = if current.score >= target {
            current.score - target
        } else {
            target - current.score
        };
        let take = if candidate_within && current_within {
            candidate.quantizer > current.quantizer
        } else if candidate_within {
            true
        } else if current_within {
            false
        } else {
            candidate_distance < current_distance || (candidate_distance == current_distance
                && candidate.quantizer > current.quantizer)
        };
        if take {
            proof {
                lemma_preferred_transitive_over(history@, best as int, i as int, target as int);
            }
            best = i;
        }
        i += 1;
    }
    proof {
        lemma_preferred_is_final(history@, best as int, target as int);
    }
    Some(history[best].quantizer)
}

/// A probe that is preferred to the best of a prefix is preferred to the
/// whole prefix.
proof fn lemma_preferred_transitive_over(history: Seq<Probe>, best: int, next: int, target: int)
    requires
        0 <= best < next < history.len(),
        forall|j: int| 0 <= j < next ==> preferred(history[best], #[trigger] history[j], target),
        preferred(history[next], history[best], target),
    ensures
        forall|j: int| 0 <= j <= next ==> preferred(history[next], #[trigger] history[j], target),
{
    assert forall|j: int| 0 <= j <= next implies preferred(
        history[next],
        #[trigger] history[j],
        target,
    ) by {
        if j < next {
            assert(preferred(history[best], history[j], target));
        }
    }
}

/// A probe that is preferred to every probe is the final choice.
proof fn lemma_preferred_is_final(history: Seq<Probe>, best: int, target: int)
    requires
        0 <= best < history.len(),
        forall|j: int| 0 <= j < history.len() ==> preferred(history[best], #[trigger] history[j], target),
    ensures
        is_final_choice(history, target, history[best].quantizer as int),
{
    let q = history[best].quantizer as int;
    if any_within_tolerance(history, target) {
        let w = choose|i: int|
            0 <= i < history.len() && within_tolerance_spec((#[trigger] history[i]).score as int, target);
        assert(preferred(history[best], history[w], target));
        assert(within_tolerance_spec(history[best].score as int, target));
        assert forall|j: int|
            0 <= j < history.len() && within_tolerance_spec(
                (#[trigger] history[j]).score as int,
                target,
            ) implies history[j].quantizer <= q by {
            assert(preferred(history[best], history[j], target));
        }
    } else {
        assert forall|j: int| 0 <= j < history.len() implies score_distance(
            history[best].score as int,
            target,
        ) < score_distance((#[trigger] history[j]).score as int, target) || (score_distance(
            history[best].score as int,
            target,
        ) == score_distance(history[j].score as int, target) && history[j].quantizer <= q) by {
            assert(preferred(history[best], history[j], target));
            assert(!within_tolerance_spec(history[j].score as int, target));
            assert(!within_tolerance_spec(history[best].score as int, target));
        }
    }
}

/// The rule of [`is_final_choice`] admits one quantizer only.
pub proof fn lemma_final_choice_unique(history: Seq<Probe>, target: int, first: int, second: int)
    requires
        is_final_choice(history, target, first),
        is_final_choice(history, target, second),
    ensures
        first == second,
{
    if any_within_tolerance(history, target) {
        let i = choose|i: int|
            0 <= i < history.len() && (#[trigger] history[i]).quantizer == first
                && within_tolerance_spec(history[i].score as int, target);
        let k = choose|k: int|
            0 <= k < history.len() && (#[trigger] history[k]).quantizer == second
                && within_tolerance_spec(history[k].score as int, target);
        assert(history[i].quantizer <= second);
        assert(history[k].quantizer <= first);
    } else {
        let i = choose|i: int|
            0 <= i < history.len() && (#[trigger] history[i]).quantizer == first && forall|j: int|
                0 <= j < history.len() ==> score_distance(history[i].score as int, target)
                    < score_distance((#[trigger] history[j]).score as int, target) || (
                score_distance(history[i].score as int, target) == score_distance(
                    history[j].score as int,
                    target,
                ) && history[j].quantizer <= first);
        let k = choose|k: int|
            0 <= k < history.len() && (#[trigger] history[k]).quantizer == second && forall|
                j: int,
            |
                0 <= j < history.len() ==> score_distance(history[k].score as int, target)
                    < score_distance((#[trigger] history[j]).score as int, target) || (
                score_distance(history[k].score as int, target) == score_distance(
                    history[j].score as int,
                    target,
                ) && history[j].quantizer <= second);
        assert(history[k].quantizer == second);
        assert(history[i].quantizer == first);
    }
}

/// The state of a search as plain mathematics: what the contracts of
/// [`QuantizerSearch`] are stated over.
pub struct SearchModel {
    pub min_q: u32,
    pub max_q: u32,
    pub budget: u32,
    pub target: u64,
    pub lower: u32,
    pub upper: u32,
    pub history: Seq<Probe>,
    pub pending: Option<u32>,
    pub stopped: Option<SkipProbingReason>,
}

impl SearchModel {
    /// A search before its first probe.
    pub open spec fn start(min_q: u32, max_q: u32, budget: u32, target: u64) -> SearchModel {
        SearchModel {
            min_q,
            max_q,
            budget,
            target,
            lower: min_q,
            upper: max_q,
            history: Seq::empty(),
            pending: None,
            stopped: None,
        }
    }

    /// The most probes the search makes: its budget, and one probe even
    /// with a budget of zero.
    pub open spec fn probe_cap(self) -> int {
        if self.budget >= 1 {
            self.budget as int
        } else {
            1
        }
    }

    /// What holds of every state that a search reaches.
    pub open spec fn wf(self) -> bool {
        &&& self.min_q <= self.lower <= self.upper <= self.max_q
        &&& self.history.len() <= self.probe_cap()
        &&& forall|i: int|
            0 <= i < self.history.len() ==> self.min_q <= (#[trigger] self.history[i]).quantizer
                <= self.max_q
        &&& self.stopped is Some ==> self.history.len() >= 1 && self.pending is None
        &&& self.stopped is None ==> self.history.len() < self.probe_cap()
        &&& self.pending matches Some(q) ==> self.lower <= q <= self.upper && !probed(
            self.history,
            q as int,
        )
    }

    /// The quantizer that this state predicts.
    pub open spec fn prediction(self, sampled: Option<u32>) -> int {
        predicted_quantizer(
            self.lower as int,
            self.upper as int,
            self.history,
            self.target as int,
            match sampled {
                Some(s) => Some(s as int),
                None => None,
            },
        )
    }

    /// The state after asking for the next action: a stopped search stays as
    /// it is, a prediction that was probed before stops the search, and any
    /// other prediction becomes the pending probe.
    pub open spec fn next(self, sampled: Option<u32>) -> SearchModel {
        if self.stopped is Some {
            self
        } else if probed(self.history, self.prediction(sampled)) {
            SearchModel { pending: None, stopped: Some(SkipProbingReason::NoSkip), ..self }
        } else {
            SearchModel { pending: Some(self.prediction(sampled) as u32), ..self }
        }
    }

    /// The lower bound after a probe: a score above the target moves it just
    /// past the probed quantizer, but not past the upper bound.
    pub open spec fn lower_after(self, quantizer: u32, score: u64) -> int {
        if score > self.target {
            if quantizer + 1 <= self.upper {
                quantizer + 1
            } else {
                self.upper as int
            }
        } else {
            self.lower as int
        }
    }

    /// The upper bound after a probe: a score at or below the target moves it
    /// just below the probed quantizer, but not below the lower bound.
    pub open spec fn upper_after(self, quantizer: u32, score: u64) -> int {
        if score > self.target {
            self.upper as int
        } else {
            if quantizer - 1 >= self.lower {
                quantizer - 1
            } else {
                self.lower as int
            }
        }
    }

    /// The state after the pending probe at `quantizer` came back with
    /// `score`. The probe joins the history. The search stops when the score
    /// is within tolerance or the budget is used up; otherwise the bounds
    /// move, and the search stops if they have crossed.
    pub open spec fn after_probe(self, quantizer: u32, score: u64) -> SearchModel {
        let history = self.history.push(Probe { quantizer, score });
        if within_tolerance_spec(score as int, self.target as int) {
            SearchModel {
                history,
                pending: None,
                stopped: Some(SkipProbingReason::WithinTolerance),
                ..self
            }
        } else if history.len() >= self.budget {
            SearchModel {
                history,
                pending: None,
                stopped: Some(SkipProbingReason::ProbeLimitReached),
                ..self
            }
        } else {
            let lower = self.lower_after(quantizer, score);
            let upper = self.upper_after(quantizer, score);
            SearchModel {
                history,
                pending: None,
                lower: lower as u32,
                upper: upper as u32,
                stopped: if lower > upper {
                    if score > self.target {
                        Some(SkipProbingReason::QuantizerTooHigh)
                    } else {
                        Some(SkipProbingReason::QuantizerTooLow)
                    }
                } else {
                    None
                },
                ..self
            }
        }
    }

    /// A whole search against a fixed world: `oracle` gives the score of a
    /// probe at each quantizer, `curve` gives the sample that the caller
    /// would pass in for each history.
    pub open spec fn run(
        self,
        oracle: spec_fn(u32) -> u64,
        curve: spec_fn(Seq<Probe>) -> Option<u32>,
    ) -> SearchModel
        decreases self.probe_cap() - self.history.len(),
    {
        if self.stopped is Some || self.history.len() >= self.probe_cap() {
            self
        } else {
            let asked = self.next(curve(self.history));
            match asked.pending {
                Some(q) => asked.after_probe(q, oracle(q)).run(oracle, curve),
                None => asked,
            }
        }
    }
}

/// A quantizer search for one chunk.
pub struct QuantizerSearch {
    /// Lowest quantizer that may be chosen.
    pub min_q: u32,
    /// Highest quantizer that may be chosen.
    pub max_q: u32,
    /// How many probes the search may make.
    pub probes: u32,
    /// The score to reach.
    pub target: u64,
    /// Current lower bound of the search.
    pub lower: u32,
    /// Current upper bound of the search.
    pub upper: u32,
    /// Every probe made so far, in the order made.
    pub history: Vec<Probe>,
    /// The quantizer whose score the search is waiting for.
    pub pending: Option<u32>,
    /// Why the search stopped, once it has.
    pub stopped: Option<SkipProbingReason>,
}

impl View for QuantizerSearch {
    type V = SearchModel;

    open spec fn view(&self) -> SearchModel {
        SearchModel {
            min_q: self.min_q,
            max_q: self.max_q,
            budget: self.probes,
            target: self.target,
            lower: self.lower,
            upper: self.upper,
            history: self.history@,
            pending: self.pending,
            stopped: self.stopped,
        }
    }
}

impl QuantizerSearch {
    /// What holds of every search that [`QuantizerSearch::new`] made and the
    /// methods moved on.
    pub open spec fn wf(&self) -> bool {
        self@.wf()
    }

    /// Starts a search over the quantizers from `min_q` to `max_q`. There is
    /// no search over an empty range.
    pub fn new(min_q: u32, max_q: u32, probes: u32, target: u64) -> (search: Option<Self>)
        ensures
            search is Some <==> min_q <= max_q,
            search matches Some(s) ==> s.wf() && s@ == SearchModel::start(
                min_q,
                max_q,
                probes,
                target,
            ),
    {
        if min_q > max_q {
            return None;
        }
        let search = QuantizerSearch {
            min_q,
            max_q,
            probes,
            target,
            lower: min_q,
            upper: max_q,
            history: Vec::new(),
            pending: None,
            stopped: None,
        };
        Some(search)
    }

    /// Whether the search is over.
    pub fn is_finished(&self) -> (finished: bool)
        ensures
            finished == (self@.stopped is Some),
    {
        self.stopped.is_some()
    }

    /// Says what to do next: probe a quantizer, or finish with the chosen
    /// one. `sampled` is the caller's curve sample for the current history
    /// (see [`predict_quantizer`]); it is only read once three probes are in.
    pub fn next_action(&mut self, sampled: Option<u32>) -> (action: SearchAction)
        requires
            old(self).wf(),
        ensures
            final(self).wf(),
            final(self)@ == old(self)@.next(sampled),
            match action {
                SearchAction::Probe(q) => final(self)@.pending == Some(q),
                SearchAction::Finish(q) => final(self)@.stopped is Some && is_final_choice(
                    final(self)@.history,
                    final(self)@.target as int,
                    q as int,
                ) && final(self)@.min_q <= q <= final(self)@.max_q,
            },
    {
        if self.stopped.is_none() {
            let quantizer = predict_quantizer(
                self.lower,
                self.upper,
                &self.history,
                self.target,
                sampled,
            );
            if already_probed(&self.history, quantizer) {
                self.pending = None;
                self.stopped = Some(SkipProbingReason::NoSkip);
            } else {
                self.pending = Some(quantizer);
                return SearchAction::Probe(quantizer);
            }
        }
        let choice = final_quantizer(&self.history, self.target);
        proof {
            lemma_final_choice_in_range(self@, choice.unwrap() as int);
        }
        SearchAction::Finish(choice.unwrap())
    }

    /// Takes the score of the pending probe. Returns `false`, and changes
    /// nothing, when no probe is pending.
    pub fn record(&mut self, score: u64) -> (accepted: bool)
        requires
            old(self).wf(),
        ensures
            final(self).wf(),
            accepted == (old(self)@.pending is Some),
            match old(self)@.pending {
                Some(q) => final(self)@ == old(self)@.after_probe(q, score),
                None => final(self)@ == old(self)@,
            },
    {
        let quantizer = match self.pending {
            Some(q) => q,
            None => {
                return false;
            },
        };
        proof {
            lemma_after_probe_wf(self@, score);
        }
        self.history.push(Probe { quantizer, score });
        self.pending = None;
        if within_tolerance(score, self.target) {
            self.stopped = Some(SkipProbingReason::WithinTolerance);
        } else if self.history.len() >= self.probes as usize {
            self.stopped = Some(SkipProbingReason::ProbeLimitReached);
        } else if score > self.target {
            self.lower = if quantizer < self.upper {
                quantizer + 1
            } else {
                self.upper
            };
        } else {
            self.upper = if quantizer > self.lower {
                quantizer - 1
            } else {
                self.lower
            };
        }
        true
    }
}

/// In a well-formed state the final choice is one of the probed quantizers,
/// so it lies between the search's limits.
pub proof fn lemma_final_choice_in_range(s: SearchModel, quantizer: int)
    requires
        s.wf(),
        is_final_choice(s.history, s.target as int, quantizer),
    ensures
        s.min_q <= quantizer <= s.max_q,
        probed(s.history, quantizer),
{
    if any_within_tolerance(s.history, s.target as int) {
        let i = choose|i: int|
            0 <= i < s.history.len() && (#[trigger] s.history[i]).quantizer == quantizer
                && within_tolerance_spec(s.history[i].score as int, s.target as int);
        assert(s.min_q <= s.history[i].quantizer <= s.max_q);
    } else {
        let i = choose|i: int|
            0 <= i < s.history.len() && (#[trigger] s.history[i]).quantizer == quantizer && forall|
                j: int,
            |
                0 <= j < s.history.len() ==> score_distance(
                    s.history[i].score as int,
                    s.target as int,
                ) < score_distance((#[trigger] s.history[j]).score as int, s.target as int) || (
                score_distance(s.history[i].score as int, s.target as int) == score_distance(
                    s.history[j].score as int,
                    s.target as int,
                ) && s.history[j].quantizer <= quantizer);
        assert(s.min_q <= s.history[i].quantizer <= s.max_q);
    }
}

/// Taking the score of the pending probe keeps a state well formed, uses one
/// more probe, and never lets the bounds cross: a search does not stop for a
/// quantizer too high or too low.
pub proof fn lemma_after_probe_wf(s: SearchModel, score: u64)
    requires
        s.wf(),
        s.pending is Some,
    ensures
        s.after_probe(s.pending.unwrap(), score).wf(),
        s.after_probe(s.pending.unwrap(), score).history.len() == s.history.len() + 1,
        s.after_probe(s.pending.unwrap(), score).lower <= s.after_probe(
            s.pending.unwrap(),
            score,
        ).upper,
        s.after_probe(s.pending.unwrap(), score).stopped != Some(
            SkipProbingReason::QuantizerTooHigh,
        ),
        s.after_probe(s.pending.unwrap(), score).stopped != Some(
            SkipProbingReason::QuantizerTooLow,
        ),
{
    let q = s.pending.unwrap();
    let after = s.after_probe(q, score);
    assert forall|i: int| 0 <= i < after.history.len() implies s.min_q <= (
    #[trigger] after.history[i]).quantizer <= s.max_q by {
        if i < s.history.len() {
            assert(after.history[i] == s.history[i]);
        }
    }
}

/// Asking for the next action keeps a state well formed.
pub proof fn lemma_next_wf(s: SearchModel, sampled: Option<u32>)
    requires
        s.wf(),
    ensures
        s.next(sampled).wf(),
        s.next(sampled).history == s.history,
        s.next(sampled).pending is None ==> s.next(sampled).stopped is Some,
{
    if s.stopped is None {
        let q = s.prediction(sampled);
        assert(s.lower <= q <= s.upper) by {
            lemma_prediction_in_bounds(s, sampled);
        }
        if probed(s.history, q) {
            let i = choose|i: int| 0 <= i < s.history.len() && (#[trigger] s.history[i]).quantizer == q;
            assert(s.history.len() >= 1);
        }
    }
}

/// A prediction lies within the bounds it was made from.
pub proof fn lemma_prediction_in_bounds(s: SearchModel, sampled: Option<u32>)
    requires
        s.lower <= s.upper,
    ensures
        s.lower <= s.prediction(sampled) <= s.upper,
{
}

/// Every search comes to an end within its budget, whatever scores the probes
/// return and whatever the caller samples from its curve: it stops after at
/// least one and at most `budget` probes (one probe for a budget of zero),
/// and the quantizer it settles on lies between `min_q` and `max_q`.
pub proof fn lemma_search_terminates_within_budget(
    min_q: u32,
    max_q: u32,
    budget: u32,
    target: u64,
    oracle: spec_fn(u32) -> u64,
    curve: spec_fn(Seq<Probe>) -> Option<u32>,
)
    requires
        min_q <= max_q,
    ensures
        ({
            let end = SearchModel::start(min_q, max_q, budget, target).run(oracle, curve);
            &&& end.wf()
            &&& end.stopped is Some
            &&& 1 <= end.history.len() <= end.probe_cap()
            &&& budget >= 1 ==> end.history.len() <= budget
            &&& forall|q: int|
                is_final_choice(end.history, target as int, q) ==> min_q <= q <= max_q
        }),
{
    let begin = SearchModel::start(min_q, max_q, budget, target);
    lemma_run_stops(begin, oracle, curve);
    let end = begin.run(oracle, curve);
    assert forall|q: int| is_final_choice(end.history, target as int, q) implies min_q <= q
        <= max_q by {
        lemma_final_choice_in_range(end, q);
    }
}

/// Running a well-formed search to its end leaves it well formed and
/// stopped, with its limits, budget and target unchanged.
pub proof fn lemma_run_stops(
    s: SearchModel,
    oracle: spec_fn(u32) -> u64,
    curve: spec_fn(Seq<Probe>) -> Option<u32>,
)
    requires
        s.wf(),
    ensures
        s.run(oracle, curve).wf(),
        s.run(oracle, curve).stopped is Some,
        s.run(oracle, curve).min_q == s.min_q,
        s.run(oracle, curve).max_q == s.max_q,
        s.run(oracle, curve).budget == s.budget,
        s.run(oracle, curve).target == s.target,
    decreases s.probe_cap() - s.history.len(),
{
    if s.stopped is Some || s.history.len() >= s.probe_cap() {
    } else {
        let asked = s.next(curve(s.history));
        lemma_next_wf(s, curve(s.history));
        match asked.pending {
            Some(q) => {
                lemma_after_probe_wf(asked, oracle(q));
                lemma_run_stops(asked.after_probe(q, oracle(q)), oracle, curve);
            },
            None => {},
        }
    }
}

/// The settings of the quantizer search of a run. The target is a score in
/// the fixed-point unit that the probes' scores come in.
#[derive(Debug, PartialEq, Eq)]
pub struct TargetQuality {
    pub vmaf_res: String,
    pub vmaf_scaler: String,
    pub vmaf_filter: Option<String>,
    pub vmaf_threads: usize,
    pub model: Option<String>,
    pub probing_rate: usize,
    pub probing_speed: Option<u8>,
    pub probes: u32,
    pub target: u64,
    pub min_q: u32,
    pub max_q: u32,
    pub encoder: Encoder,
    pub pix_format: String,
    pub temp: String,
    pub workers: usize,
    pub video_params: Vec<String>,
    pub vspipe_args: Vec<String>,
    pub probe_slow: bool,
    pub probing_vmaf_features: Vec<VmafFeature>,
}

/// Which features of the metric the probes switch on.
#[derive(Debug, Clone, Copy, PartialEq, Eq, Structural)]
pub struct FeatureFlags {
    pub weighted: bool,
    pub neg: bool,
    pub motionless: bool,
}

/// Whether the features hold this one.
pub open spec fn has_feature(features: Seq<VmafFeature>, feature: VmafFeature) -> bool {
    exists|i: int| 0 <= i < features.len() && #[trigger] features[i] == feature
}

/// Tells whether the features hold this one.
pub fn contains_feature(features: &Vec<VmafFeature>, feature: VmafFeature) -> (found: bool)
    ensures
        found == has_feature(features@, feature),
{
    let mut i: usize = 0;
    while i < features.len()
        invariant
            i <= features.len(),
            forall|j: int| 0 <= j < i ==> #[trigger] features@[j] != feature,
        decreases features.len() - i,
    {
        if features[i] == feature {
            return true;
        }
        i += 1;
    }
    false
}

/// Number of threads for the metric when none was set: the threads that each
/// worker has, and a quarter more, rounded down, but one at least and no more
/// than the highest number there is.
pub open spec fn auto_threads(threads: usize, workers: usize) -> int {
    if (threads / workers) * 5 / 4 > usize::MAX {
        usize::MAX as int
    } else if (threads / workers) * 5 / 4 >= 1 {
        (threads / workers) * 5 / 4
    } else {
        1
    }
}

/// Works out the number of threads for the metric from the threads of the
/// machine and the number of workers, of which there has to be one.
pub fn vmaf_auto_threads(threads: usize, workers: usize) -> (count: usize)
    requires
        workers > 0,
    ensures
        count == auto_threads(threads, workers),
{
    let share: u128 = (threads / workers) as u128;
    let provisioned: u128 = share * 5 / 4;
    if provisioned >= 1 {
        if provisioned > usize::MAX as u128 {
            usize::MAX
        } else {
            provisioned as usize
        }
    } else {
        1
    }
}

/// File name of the probe of a chunk at a quantizer:
/// `<temp>/split/v_<index, five digits>_<quantizer>.<extension>`.
pub open spec fn probe_file_spec(temp: Seq<char>, index: nat, quantizer: nat, encoder: Encoder) -> Seq<
    char,
> {
    temp + "/split/v_"@ + chunk_name(index) + "_"@ + decimal_text(quantizer) + "."@
        + output_extension_spec(encoder)
}

/// File name of the metric's work file of a chunk:
/// `<temp>/split/<index>.json`.
pub open spec fn work_file_spec(temp: Seq<char>, index: nat) -> Seq<char> {
    temp + "/split/"@ + decimal_text(index) + ".json"@
}

/// The text that a record of a search ends with, by the reason for which the
/// search stopped.
pub open spec fn skip_suffix(skip: SkipProbingReason) -> Seq<char> {
    match skip {
        SkipProbingReason::NoSkip => ""@,
        SkipProbingReason::QuantizerTooHigh => "Early Skip High Quantizer"@,
        SkipProbingReason::QuantizerTooLow => " Early Skip Low Quantizer"@,
        SkipProbingReason::WithinTolerance => " Early Skip Within Tolerance"@,
        SkipProbingReason::ProbeLimitReached => " Early Skip Probe Limit Reached"@,
    }
}

/// Whether the probes are in the order of their quantizers.
pub open spec fn by_quantizer(history: Seq<Probe>) -> bool {
    forall|i: int, j: int|
        0 <= i < j < history.len() ==> (#[trigger] history[i]).quantizer <= (
        #[trigger] history[j]).quantizer
}

/// The probes of a history at one quantizer, in the order of the history.
pub open spec fn probes_at(history: Seq<Probe>, quantizer: u32) -> Seq<Probe> {
    history.filter(|p: Probe| p.quantizer == quantizer)
}

/// Puts the probes of a search into the order of their quantizers, for the
/// record, and returns the text that the record ends with. Probes at one
/// quantizer stay in the order they were in.
pub fn log_probes(quantizer_score_history: &mut Vec<Probe>, skip: SkipProbingReason) -> (suffix:
    &'static str)
    ensures
        suffix@ == skip_suffix(skip),
        by_quantizer(final(quantizer_score_history)@),
        forall|q: u32| #[trigger]
            probes_at(final(quantizer_score_history)@, q) == probes_at(
                old(quantizer_score_history)@,
                q,
            ),
        final(quantizer_score_history)@.to_multiset() == old(quantizer_score_history)@.to_multiset(),
{
    let mut sorted: Vec<Probe> = Vec::new();
    proof {
        lemma_nothing_there(quantizer_score_history@, sorted@);
        assert forall|q: u32| #[trigger]
            probes_at(sorted@, q) + probes_at(quantizer_score_history@, q) == probes_at(
                old(quantizer_score_history)@,
                q,
            ) by {
            lemma_filter_keeps_none(sorted@, |p: Probe| p.quantizer == q);
            assert(Seq::<Probe>::empty() + probes_at(quantizer_score_history@, q) =~= probes_at(
                quantizer_score_history@,
                q,
            ));
        }
    }
    while quantizer_score_history.len() > 0
        invariant
            sorted@.to_multiset().add(quantizer_score_history@.to_multiset()) == old(
                quantizer_score_history,
            )@.to_multiset(),
            by_quantizer(sorted@),
            forall|i: int, j: int|
                0 <= i < sorted@.len() && 0 <= j < quantizer_score_history@.len() ==> (
                #[trigger] sorted@[i]).quantizer <= (#[trigger] quantizer_score_history@[j]).quantizer,
            forall|q: u32| #[trigger]
                probes_at(sorted@, q) + probes_at(quantizer_score_history@, q) == probes_at(
                    old(quantizer_score_history)@,
                    q,
                ),
        decreases quantizer_score_history.len(),
    {
        let mut least: usize = 0;
        let mut k: usize = 1;
        while k < quantizer_score_history.len()
            invariant
                1 <= k <= quantizer_score_history.len(),
                least < k,
                forall|j: int|
                    0 <= j < k ==> quantizer_score_history@[least as int].quantizer <= (
                    #[trigger] quantizer_score_history@[j]).quantizer,
                forall|j: int|
                    0 <= j < least ==> quantizer_score_history@[least as int].quantizer < (
                    #[trigger] quantizer_score_history@[j]).quantizer,
            decreases quantizer_score_history.len() - k,
        {
            if quantizer_score_history[k].quantizer < quantizer_score_history[least].quantizer {
                least = k;
            }
            k += 1;
        }
        let ghost before_rest = quantizer_score_history@;
        let ghost before_sorted = sorted@;
        let probe = quantizer_score_history.remove(least);
        sorted.push(probe);
        proof {
            lemma_move_keeps(before_sorted, before_rest, least as int);
            lemma_probe_moved(before_sorted, before_rest, least as int, old(quantizer_score_history)@);
            assert forall|i: int, j: int|
                0 <= i < sorted@.len() && 0 <= j < quantizer_score_history@.len() implies (
            #[trigger] sorted@[i]).quantizer <= (#[trigger] quantizer_score_history@[j]).quantizer by {
                let from = if j < least { j } else { j + 1 };
                assert(quantizer_score_history@[j] == before_rest[from]);
                if i < before_sorted.len() {
                    assert(sorted@[i] == before_sorted[i]);
                }
            }
            assert forall|i: int, j: int| 0 <= i < j < sorted@.len() implies (
            #[trigger] sorted@[i]).quantizer <= (#[trigger] sorted@[j]).quantizer by {
                assert(sorted@[i] == before_sorted[i]);
                if j < before_sorted.len() {
                    assert(sorted@[j] == before_sorted[j]);
                } else {
                    assert(sorted@[j] == before_rest[least as int]);
                }
            }
        }
    }
    proof {
        lemma_nothing_there(sorted@, quantizer_score_history@);
        assert forall|q: u32| #[trigger]
            probes_at(sorted@, q) == probes_at(old(quantizer_score_history)@, q) by {
            lemma_filter_keeps_none(quantizer_score_history@, |p: Probe| p.quantizer == q);
            assert(probes_at(sorted@, q) + probes_at(quantizer_score_history@, q) == probes_at(
                old(quantizer_score_history)@,
                q,
            ));
            assert(probes_at(sorted@, q) + Seq::<Probe>::empty() =~= probes_at(sorted@, q));
        }
    }
    *quantizer_score_history = sorted;
    match skip {
        SkipProbingReason::NoSkip => "",
        SkipProbingReason::QuantizerTooHigh => "Early Skip High Quantizer",
        SkipProbingReason::QuantizerTooLow => " Early Skip Low Quantizer",
        SkipProbingReason::WithinTolerance => " Early Skip Within Tolerance",
        SkipProbingReason::ProbeLimitReached => " Early Skip Probe Limit Reached",
    }
}

/// Moving the first of the probes with the least quantizer from the rest to
/// the end of the probes placed keeps, at every quantizer, the probes that
/// the two hold in their order.
proof fn lemma_probe_moved(placed: Seq<Probe>, rest: Seq<Probe>, at: int, all: Seq<Probe>)
    requires
        0 <= at < rest.len(),
        forall|j: int| 0 <= j < at ==> rest[at].quantizer < (#[trigger] rest[j]).quantizer,
        forall|q: u32| #[trigger] probes_at(placed, q) + probes_at(rest, q) == probes_at(all, q),
    ensures
        forall|q: u32| #[trigger]
            probes_at(placed.push(rest[at]), q) + probes_at(rest.remove(at), q) == probes_at(
                all,
                q,
            ),
{
    let probe = rest[at];
    assert forall|q: u32| #[trigger]
        probes_at(placed.push(probe), q) + probes_at(rest.remove(at), q) == probes_at(
            all,
            q,
        ) by {
        let keep = |p: Probe| p.quantizer == q;
        assert(probes_at(placed, q) + probes_at(rest, q) == probes_at(all, q));
        lemma_filter_one_more(placed, probe, keep);
        if probe.quantizer == q {
            assert forall|j: int| 0 <= j < at implies !keep(#[trigger] rest[j]) by {
                assert(rest[at].quantizer < rest[j].quantizer);
            }
            lemma_filter_remove_first(rest, keep, at);
            let a = placed.filter(keep);
            let b = rest.filter(keep);
            assert(a.push(probe) + b.drop_first() =~= a + b);
        } else {
            lemma_filter_remove_other(rest, keep, at);
        }
    }
}

impl TargetQuality {
    /// Starts the search for a chunk. There is no search over an empty range
    /// of quantizers.
    pub fn start_search(&self) -> (search: Option<QuantizerSearch>)
        ensures
            search is Some <==> self.min_q <= self.max_q,
            search matches Some(s) ==> s.wf() && s@ == SearchModel::start(
                self.min_q,
                self.max_q,
                self.probes,
                self.target,
            ),
    {
        QuantizerSearch::new(self.min_q, self.max_q, self.probes, self.target)
    }

    /// Takes the search of a chunk one step on: says which quantizer to
    /// probe next, or, when the search is over, notes the quantizer that it
    /// settled on in the chunk.
    pub fn per_shot_target_quality_routine(
        &self,
        chunk: &mut Chunk,
        search: &mut QuantizerSearch,
        sampled: Option<u32>,
    ) -> (action: SearchAction)
        requires
            old(search).wf(),
        ensures
            final(search).wf(),
            final(search)@ == old(search)@.next(sampled),
            match action {
                SearchAction::Probe(q) => final(search)@.pending == Some(q) && final(chunk)@ == old(
                    chunk,
                )@,
                SearchAction::Finish(q) => final(search)@.stopped is Some && is_final_choice(
                    final(search)@.history,
                    final(search)@.target as int,
                    q as int,
                ) && final(search)@.min_q <= q <= final(search)@.max_q && final(chunk)@
                    == (ChunkModel { tq_cq: Some(q), ..old(chunk)@ }),
            },
    {
        let action = search.next_action(sampled);
        match action {
            SearchAction::Finish(q) => {
                chunk.set_target_quantizer(q);
            },
            SearchAction::Probe(_) => {},
        }
        action
    }

    /// Number of threads that the metric runs with: the number set, or, with
    /// none set, what [`vmaf_auto_threads`] makes of the threads of the
    /// machine.
    pub fn probe_threads(&self, available: usize) -> (count: usize)
        requires
            self.vmaf_threads == 0 ==> self.workers > 0,
        ensures
            count == if self.vmaf_threads == 0 {
                auto_threads(available, self.workers)
            } else {
                self.vmaf_threads as int
            },
    {
        if self.vmaf_threads == 0 {
            vmaf_auto_threads(available, self.workers)
        } else {
            self.vmaf_threads
        }
    }

    /// Names the file that the probe of a chunk at a quantizer is encoded
    /// to.
    pub fn probe_file(&self, chunk: &Chunk, quantizer: usize) -> (path: String)
        ensures
            path@ == probe_file_spec(chunk@.temp, chunk@.index, quantizer as nat, self.encoder),
    {
        let mut path = chunk.temp.clone();
        path.append("/split/v_");
        append_padded_decimal(&mut path, chunk.index, NAME_WIDTH);
        path.append("_");
        append_decimal(&mut path, quantizer);
        path.append(".");
        path.append(self.encoder.output_extension());
        path
    }

    /// Names the work file of the metric for a chunk.
    pub fn work_file(&self, chunk: &Chunk) -> (path: String)
        ensures
            path@ == work_file_spec(chunk@.temp, chunk@.index),
    {
        let mut path = chunk.temp.clone();
        path.append("/split/");
        append_decimal(&mut path, chunk.index);
        path.append(".json");
        path
    }

    /// Which features of the metric the probes switch on.
    pub fn feature_flags(&self) -> (flags: FeatureFlags)
        ensures
            flags == (FeatureFlags {
                weighted: has_feature(self.probing_vmaf_features@, VmafFeature::Weighted),
                neg: has_feature(self.probing_vmaf_features@, VmafFeature::Neg),
                motionless: has_feature(self.probing_vmaf_features@, VmafFeature::Motionless),
            }),
    {
        FeatureFlags {
            weighted: contains_feature(&self.probing_vmaf_features, VmafFeature::Weighted),
            neg: contains_feature(&self.probing_vmaf_features, VmafFeature::Neg),
            motionless: contains_feature(&self.probing_vmaf_features, VmafFeature::Motionless),
        }
    }

    /// The model that the metric runs with: the model set, or, where none
    /// is set and the `Neg` feature is on, the model that goes with it.
    pub fn probe_model(&self) -> (model: Option<String>)
        ensures
            match self.model {
                Some(set) => model is Some && model.unwrap()@ == set@,
                None => if has_feature(self.probing_vmaf_features@, VmafFeature::Neg) {
                    model is Some && model.unwrap()@ == "vmaf_v0.6.1neg.json"@
                } else {
                    model is None
                },
            },
    {
        match &self.model {
            Some(set) => Some(set.clone()),
            None => if contains_feature(&self.probing_vmaf_features, VmafFeature::Neg) {
                Some(String::from_str("vmaf_v0.6.1neg.json"))
            } else {
                None
            },
        }
    }
}

/// What a worker's bar says while a probe runs:
/// `Targeting Quality <target> - Testing <quantizer>`; `target` is the
/// target as it is shown.
pub open spec fn probing_message(target: Seq<char>, quantizer: u32) -> Seq<char> {
    "Targeting Quality "@ + target + " - Testing "@ + decimal_text(quantizer as nat)
}

/// Words what a worker's bar says while a probe runs.
pub fn compose_probing_message(target: &str, quantizer: u32) -> (message: String)
    ensures
        message@ == probing_message(target@, quantizer),
{
    let mut message = String::from_str("Targeting Quality ");
    message.append(target);
    message.append(" - Testing ");
    append_decimal_u64(&mut message, quantizer as u64);
    message
}

/// The range of quantizers to search: the range asked for, or the encoder's
/// own.
pub fn quantizer_range(asked: Option<(u32, u32)>, encoder_range: (u32, u32)) -> (range: (u32, u32))
    ensures
        range == match asked {
            Some(given) => given,
            None => encoder_range,
        },
{
    match asked {
        Some(given) => given,
        None => encoder_range,
    }
}

/// The features of the metric to probe with: those asked for, or the
/// default where none was asked for.
pub fn features_or_default(asked: Vec<VmafFeature>) -> (features: Vec<VmafFeature>)
    ensures
        features@ == if asked@.len() == 0 {
            seq![VmafFeature::Default]
        } else {
            asked@
        },
{
    if asked.len() == 0 {
        let mut features: Vec<VmafFeature> = Vec::new();
        features.push(VmafFeature::Default);
        features
    } else {
        asked
    }
}

} // verus!
