//! The encode broker: which worker has which chunk, how often a chunk was
//! tried, and how many frames of progress are accounted for.
//!
//! The broker decides; it does not run anything. A worker asks it for a chunk
//! with [`Broker::assign`], reports the frames that the encoder has written
//! with [`Broker::report_frames`], and reports how each encoder run ended
//! with [`Broker::finish_attempt`]. What comes back says what to do next:
//! how far to move the progress display, whether to run the next pass, to try
//! again, or to give up.

use vstd::prelude::*;
use crate::chunk::{chunk_name, name_of, Chunk};
use crate::ledger::{is_done, lemma_unfinished, unfinished, DoneChunk, DoneLedger, LedgerModel};

verus! {

/// How an encoder run is judged.
#[derive(Debug, Clone, Copy, PartialEq, Eq, Structural)]
pub enum AttemptResult {
    /// The run did what it was meant to do.
    Passed,
    /// The encoder ended with a failure status.
    Crashed,
    /// The encoder wrote another number of frames than the chunk has.
    FrameMismatch { actual: usize, expected: usize },
    /// The frames that the encoder wrote could not be counted.
    FramesUncounted,
}

/// The rule by which an encoder run is judged. A failure status is a crash.
/// After the last pass the frames of the output are counted: a count that
/// failed is a crash, and so is a count that differs from the chunk's number
/// of frames, unless the chunk accepts that.
pub open spec fn judged(
    exit_ok: bool,
    last_pass: bool,
    counted: Option<usize>,
    expected: usize,
    ignore_frame_mismatch: bool,
) -> AttemptResult {
    if !exit_ok {
        AttemptResult::Crashed
    } else if !last_pass {
        AttemptResult::Passed
    } else {
        match counted {
            None => AttemptResult::FramesUncounted,
            Some(actual) => if !ignore_frame_mismatch && actual != expected {
                AttemptResult::FrameMismatch { actual, expected }
            } else {
                AttemptResult::Passed
            },
        }
    }
}

/// Judges an encoder run by the rule of [`judged`]. `counted` is the number
/// of frames found in the output, `None` where counting failed; it is only
/// looked at after the last pass.
pub fn judge_attempt(
    exit_ok: bool,
    last_pass: bool,
    counted: Option<usize>,
    expected: usize,
    ignore_frame_mismatch: bool,
) -> (result: AttemptResult)
    ensures
        result == judged(exit_ok, last_pass, counted, expected, ignore_frame_mismatch),
{
    if !exit_ok {
        AttemptResult::Crashed
    } else if !last_pass {
        AttemptResult::Passed
    } else {
        match counted {
            None => AttemptResult::FramesUncounted,
            Some(actual) => if !ignore_frame_mismatch && actual != expected {
                AttemptResult::FrameMismatch { actual, expected }
            } else {
                AttemptResult::Passed
            },
        }
    }
}

/// What a worker is doing with its chunk.
#[derive(Debug, Clone, Copy, PartialEq, Eq, Structural)]
pub struct Attempt {
    /// Position of the chunk in the queue.
    pub position: usize,
    /// Which try of the current pass this is, counted from one.
    pub tries: usize,
    /// The pass that is running, counted from one.
    pub pass: u8,
    /// Frames that the encoder has reported in this try.
    pub frame: u64,
}

/// What the broker tells a worker after an encoder run.
#[derive(Debug, Clone, Copy, PartialEq, Eq, Structural)]
pub enum Verdict {
    /// The worker has no chunk; nothing happened.
    Ignored,
    /// The pass is done; run this pass next.
    NextPass { pass: u8 },
    /// The chunk is done. `recorded` is false where the ledger held the
    /// chunk already.
    Completed { position: usize, recorded: bool },
    /// The run failed. Move the progress display back by `rewind` frames and
    /// run the pass again.
    Retry { rewind: u64, tries: usize },
    /// The run failed for the last time. Move the progress display back by
    /// `rewind` frames and end the whole run.
    Fatal { rewind: u64, position: usize },
}

/// The broker's state.
pub struct Broker {
    /// The chunks to encode, in the order in which they are handed out.
    pub queue: Vec<Chunk>,
    /// How many chunks of the queue have been handed out.
    pub next: usize,
    /// How often a pass is tried before the run is given up.
    pub max_tries: usize,
    /// One slot per worker: what the worker is doing, if anything.
    pub slots: Vec<Option<Attempt>>,
    /// The record of finished chunks.
    pub ledger: DoneLedger,
    /// Frames of progress at the start of the run.
    pub initial: u64,
    /// Frames of progress now: all that workers reported, less what was
    /// taken back after failed runs.
    pub progress: u64,
    /// Frames that the successful runs of finished chunks reported.
    pub credited: u64,
    /// Position of the first chunk that ran out of tries.
    pub failed: Option<usize>,
    /// What the ledger held when the run started.
    pub start: Ghost<Map<Seq<char>, DoneChunk>>,
}

/// Whether one of the first `upto` chunks of the queue has this name.
pub open spec fn named_in(queue: Seq<Chunk>, upto: int, name: Seq<char>) -> bool {
    exists|p: int| 0 <= p < upto && p < queue.len() && chunk_name((#[trigger] queue[p]).index as nat) == name
}

/// Frames that the runs under way have reported.
pub open spec fn in_flight(slots: Seq<Option<Attempt>>) -> nat
    decreases slots.len(),
{
    if slots.len() == 0 {
        0
    } else {
        in_flight(slots.drop_last()) + match slots.last() {
            Some(attempt) => attempt.frame as nat,
            None => 0,
        }
    }
}

/// Whether some worker has the chunk at this position of the queue.
pub open spec fn held(slots: Seq<Option<Attempt>>, position: int) -> bool {
    exists|w: int| 0 <= w < slots.len() && #[trigger] slots[w] is Some && slots[w].unwrap().position == position
}

/// Frames of a slot.
pub open spec fn slot_frames(slot: Option<Attempt>) -> nat {
    match slot {
        Some(attempt) => attempt.frame as nat,
        None => 0,
    }
}

/// Changing one slot changes the frames under way by the difference of that
/// slot's frames.
pub proof fn lemma_in_flight_update(slots: Seq<Option<Attempt>>, w: int, slot: Option<Attempt>)
    requires
        0 <= w < slots.len(),
    ensures
        in_flight(slots.update(w, slot)) == in_flight(slots) - slot_frames(slots[w]) + slot_frames(
            slot,
        ),
        in_flight(slots) >= slot_frames(slots[w]),
    decreases slots.len(),
{
    let after = slots.update(w, slot);
    if w == slots.len() - 1 {
        assert(after.drop_last() =~= slots.drop_last());
    } else {
        assert(after.drop_last() =~= slots.drop_last().update(w, slot));
        lemma_in_flight_update(slots.drop_last(), w, slot);
    }
}

/// Idle workers have nothing under way.
pub proof fn lemma_in_flight_idle(slots: Seq<Option<Attempt>>)
    requires
        forall|w: int| 0 <= w < slots.len() ==> #[trigger] slots[w] is None,
    ensures
        in_flight(slots) == 0,
    decreases slots.len(),
{
    if slots.len() > 0 {
        assert forall|w: int| 0 <= w < slots.drop_last().len() implies #[trigger] slots.drop_last()[w] is None by {
            assert(slots[w] is None);
        }
        lemma_in_flight_idle(slots.drop_last());
    }
}

impl Broker {
    /// What holds of every state that the broker reaches.
    ///
    /// Every chunk that was handed out is with a worker or in the ledger, and
    /// no two workers have the same chunk. The ledger holds what it held at
    /// the start and chunks that were handed out, and nothing else. The
    /// progress is what the run started with, plus the frames of the
    /// successful runs of finished chunks, plus the frames of the runs under
    /// way: what failed runs reported is not in it.
    pub open spec fn wf(&self) -> bool {
        &&& self.next <= self.queue@.len()
        &&& self.max_tries >= 1
        &&& self.ledger.wf()
        &&& forall|p: int| 0 <= p < self.queue@.len() ==> 1 <= (#[trigger] self.queue@[p]).passes <= 2
        &&& forall|w: int|
            0 <= w < self.slots@.len() ==> (#[trigger] self.slots@[w] matches Some(a) ==> {
                &&& a.position < self.next
                &&& 1 <= a.tries <= self.max_tries
                &&& 1 <= a.pass <= self.queue@[a.position as int].passes
                &&& a.pass < self.queue@[a.position as int].passes ==> a.frame == 0
            })
        &&& forall|v: int, w: int|
            0 <= v < self.slots@.len() && 0 <= w < self.slots@.len() && v != w
                && #[trigger] self.slots@[v] is Some && #[trigger] self.slots@[w] is Some
                ==> self.slots@[v].unwrap().position != self.slots@[w].unwrap().position
        &&& forall|p: int|
            0 <= p < self.next ==> #[trigger] held(self.slots@, p) || self.ledger@.done.contains_key(
                chunk_name(self.queue@[p].index as nat),
            )
        &&& self.failed matches Some(p) ==> p < self.next
        &&& forall|name: Seq<char>| #[trigger]
            self.start@.contains_key(name) ==> self.ledger@.done.contains_key(name)
        &&& forall|name: Seq<char>| #[trigger]
            self.ledger@.done.contains_key(name) ==> self.start@.contains_key(name) || named_in(
                self.queue@,
                self.next as int,
                name,
            )
        &&& self.progress == self.initial + self.credited + in_flight(self.slots@)
    }

    /// Whether every chunk of the queue is finished and none failed for
    /// good.
    pub open spec fn all_done(&self) -> bool {
        &&& self.next == self.queue@.len()
        &&& self.failed is None
        &&& forall|w: int| 0 <= w < self.slots@.len() ==> #[trigger] self.slots@[w] is None
    }

    /// Whether the two states differ in nothing but their slots, their
    /// progress and what depends on them.
    pub open spec fn same_run(&self, other: &Broker) -> bool {
        &&& self.queue == other.queue
        &&& self.max_tries == other.max_tries
        &&& self.initial == other.initial
        &&& self.start == other.start
        &&& self.slots@.len() == other.slots@.len()
    }

    /// A broker for a queue and a number of workers. `initial` is the number
    /// of frames that count as done before the run starts. There is no
    /// broker without a try per pass, nor for a chunk with another number of
    /// passes than one or two.
    pub fn new(
        queue: Vec<Chunk>,
        workers: usize,
        max_tries: usize,
        ledger: DoneLedger,
        initial: u64,
    ) -> (broker: Option<Broker>)
        requires
            ledger.wf(),
        ensures
            broker is Some <==> max_tries >= 1 && forall|p: int|
                0 <= p < queue@.len() ==> 1 <= (#[trigger] queue@[p]).passes <= 2,
            broker matches Some(b) ==> {
                &&& b.wf()
                &&& b.queue == queue
                &&& b.next == 0
                &&& b.max_tries == max_tries
                &&& b.slots@.len() == workers
                &&& forall|w: int| 0 <= w < workers ==> #[trigger] b.slots@[w] is None
                &&& b.ledger == ledger
                &&& b.initial == initial
                &&& b.progress == initial
                &&& b.credited == 0
                &&& b.failed is None
                &&& b.start@ == ledger@.done
            },
    {
        if max_tries == 0 {
            return None;
        }
        let mut p: usize = 0;
        while p < queue.len()
            invariant
                p <= queue.len(),
                forall|q: int| 0 <= q < p ==> 1 <= (#[trigger] queue@[q]).passes <= 2,
            decreases queue.len() - p,
        {
            if queue[p].passes < 1 || queue[p].passes > 2 {
                return None;
            }
            p += 1;
        }
        let mut slots: Vec<Option<Attempt>> = Vec::new();
        let mut w: usize = 0;
        while w < workers
            invariant
                w <= workers,
                slots@.len() == w,
                forall|v: int| 0 <= v < w ==> #[trigger] slots@[v] is None,
            decreases workers - w,
        {
            slots.push(None);
            w += 1;
        }
        proof {
            lemma_in_flight_idle(slots@);
        }
        Some(
            Broker {
                queue,
                next: 0,
                max_tries,
                slots,
                ledger,
                initial,
                progress: initial,
                credited: 0,
                failed: None,
                start: Ghost(ledger@.done),
            },
        )
    }

    /// Whether every chunk of the queue is finished and none failed for
    /// good.
    pub fn is_finished(&self) -> (finished: bool)
        ensures
            finished == self.all_done(),
    {
        if self.next != self.queue.len() || self.failed.is_some() {
            return false;
        }
        let mut w: usize = 0;
        while w < self.slots.len()
            invariant
                w <= self.slots.len(),
                forall|v: int| 0 <= v < w ==> #[trigger] self.slots@[v] is None,
            decreases self.slots.len() - w,
        {
            if self.slots[w].is_some() {
                return false;
            }
            w += 1;
        }
        true
    }

    /// Hands the next chunk of the queue to a worker and returns its position
    /// in the queue. Nothing is handed out to a worker that has a chunk or
    /// does not exist, from a queue that is used up, or after a chunk failed
    /// for good.
    pub fn assign(&mut self, worker: usize) -> (position: Option<usize>)
        requires
            old(self).wf(),
        ensures
            final(self).wf(),
            final(self).same_run(old(self)),
            final(self).ledger == old(self).ledger,
            final(self).progress == old(self).progress,
            final(self).credited == old(self).credited,
            final(self).failed == old(self).failed,
            position is Some <==> worker < old(self).slots@.len() && old(self).slots@[worker as int] is None
                && old(self).next < old(self).queue@.len() && old(self).failed is None,
            match position {
                Some(p) => p == old(self).next && final(self).next == p + 1 && final(self).slots@
                    == old(self).slots@.update(
                    worker as int,
                    Some(Attempt { position: p, tries: 1, pass: 1, frame: 0 }),
                ),
                None => final(self).next == old(self).next && final(self).slots@ == old(self).slots@,
            },
    {
        if worker >= self.slots.len() || self.slots[worker].is_some() || self.next
            >= self.queue.len() || self.failed.is_some() {
            return None;
        }
        let position = self.next;
        let ghost before = self.slots@;
        let attempt = Attempt { position, tries: 1, pass: 1, frame: 0 };
        self.slots.set(worker, Some(attempt));
        self.next = position + 1;
        proof {
            lemma_in_flight_update(before, worker as int, Some(attempt));
            assert forall|name: Seq<char>| #[trigger]
                self.ledger@.done.contains_key(name) implies self.start@.contains_key(name)
                || named_in(self.queue@, self.next as int, name) by {
                if !self.start@.contains_key(name) {
                    assert(named_in(self.queue@, position as int, name));
                    let q = choose|q: int|
                        0 <= q < position && q < self.queue@.len() && chunk_name(
                            (#[trigger] self.queue@[q]).index as nat,
                        ) == name;
                    assert(chunk_name(self.queue@[q].index as nat) == name);
                }
            }
            assert forall|p: int| 0 <= p < self.next implies #[trigger] held(self.slots@, p)
                || self.ledger@.done.contains_key(chunk_name(self.queue@[p].index as nat)) by {
                if p == position {
                    assert(self.slots@[worker as int] is Some);
                } else if held(before, p) {
                    let v = choose|v: int|
                        0 <= v < before.len() && #[trigger] before[v] is Some
                            && before[v].unwrap().position == p;
                    assert(self.slots@[v] is Some);
                }
            }
        }
        Some(position)
    }

    /// Takes the number of frames that the encoder of a worker has written so
    /// far in its current run, and returns by how many frames the progress
    /// display has to move forward. Only the last pass counts, only a number
    /// higher than the last one reported, and only while the progress stays
    /// within its range.
    pub fn report_frames(&mut self, worker: usize, frame: u64) -> (advance: u64)
        requires
            old(self).wf(),
        ensures
            final(self).wf(),
            final(self).same_run(old(self)),
            final(self).next == old(self).next,
            final(self).ledger == old(self).ledger,
            final(self).credited == old(self).credited,
            final(self).failed == old(self).failed,
            final(self).progress == old(self).progress + advance,
            advance > 0 <==> old(self).counts(worker, frame),
            advance > 0 ==> advance == frame - old(self).slots@[worker as int].unwrap().frame
                && final(self).slots@ == old(self).slots@.update(
                worker as int,
                Some(Attempt { frame, ..old(self).slots@[worker as int].unwrap() }),
            ),
            advance == 0 ==> final(self).slots@ == old(self).slots@,
    {
        if worker >= self.slots.len() {
            return 0;
        }
        let attempt = match self.slots[worker] {
            Some(attempt) => attempt,
            None => {
                return 0;
            },
        };
        if attempt.pass != self.queue[attempt.position].passes || frame <= attempt.frame {
            return 0;
        }
        let advance = frame - attempt.frame;
        if advance > u64::MAX - self.progress {
            return 0;
        }
        let ghost before = self.slots@;
        let moved = Attempt { frame, ..attempt };
        self.slots.set(worker, Some(moved));
        self.progress = self.progress + advance;
        proof {
            lemma_in_flight_update(before, worker as int, Some(moved));
            self.lemma_slot_changed(old(self), worker as int);
        }
        advance
    }

    /// Whether a report of `frame` frames from this worker moves the
    /// progress.
    pub open spec fn counts(&self, worker: usize, frame: u64) -> bool {
        &&& worker < self.slots@.len()
        &&& self.slots@[worker as int] matches Some(a) && a.pass == self.queue@[a.position as int].passes
            && frame > a.frame && self.progress + (frame - a.frame) <= u64::MAX
    }

    /// A state that differs from a well-formed one in one slot that keeps its
    /// chunk holds every chunk that the other held.
    proof fn lemma_slot_changed(&self, before: &Broker, worker: int)
        requires
            0 <= worker < before.slots@.len(),
            before.slots@[worker] is Some,
            self.slots@.len() == before.slots@.len(),
            self.slots@[worker] is Some,
            self.slots@[worker].unwrap().position == before.slots@[worker].unwrap().position,
            forall|v: int| 0 <= v < before.slots@.len() && v != worker ==> self.slots@[v] == before.slots@[v],
        ensures
            forall|p: int| held(before.slots@, p) ==> held(self.slots@, p),
    {
        assert forall|p: int| held(before.slots@, p) implies held(self.slots@, p) by {
            let v = choose|v: int|
                0 <= v < before.slots@.len() && #[trigger] before.slots@[v] is Some
                    && before.slots@[v].unwrap().position == p;
            assert(self.slots@[v] is Some);
        }
    }

    /// Takes the end of an encoder run and says what follows from it.
    ///
    /// `result` is how the run was judged (see [`judge_attempt`]);
    /// `size_bytes` is the size of the encoded chunk and only counts for the
    /// run that finishes a chunk.
    ///
    /// A run that passed moves the worker on to the next pass, with a fresh
    /// count of tries, or, after the last pass, puts the chunk into the
    /// ledger and frees the worker. A run that did not pass takes the frames
    /// back that it had reported; the pass is tried again unless this was the
    /// last try, which ends the run for good.
    pub fn finish_attempt(&mut self, worker: usize, result: AttemptResult, size_bytes: u64) -> (verdict:
        Verdict)
        requires
            old(self).wf(),
        ensures
            final(self).wf(),
            final(self).same_run(old(self)),
            final(self).next == old(self).next,
            verdict == old(self).verdict_of(worker, result),
            match verdict {
                Verdict::Ignored => *final(self) == *old(self),
                Verdict::NextPass { pass } => {
                    &&& final(self).slots@ == old(self).slots@.update(
                        worker as int,
                        Some(
                            Attempt {
                                pass,
                                tries: 1,
                                frame: 0,
                                ..old(self).slots@[worker as int].unwrap()
                            },
                        ),
                    )
                    &&& final(self).ledger == old(self).ledger
                    &&& final(self).progress == old(self).progress
                    &&& final(self).credited == old(self).credited
                    &&& final(self).failed == old(self).failed
                },
                Verdict::Completed { position, recorded } => {
                    &&& final(self).slots@ == old(self).slots@.update(worker as int, None)
                    &&& final(self).progress == old(self).progress
                    &&& final(self).credited == old(self).credited + old(self).slots@[worker as int].unwrap().frame
                    &&& final(self).failed == old(self).failed
                    &&& recorded == !old(self).ledger@.done.contains_key(
                        chunk_name(old(self).queue@[position as int].index as nat),
                    )
                    &&& final(self).ledger@.done.contains_key(
                        chunk_name(old(self).queue@[position as int].index as nat),
                    )
                    &&& recorded ==> final(self).ledger@ == (LedgerModel {
                        done: old(self).ledger@.done.insert(
                            chunk_name(old(self).queue@[position as int].index as nat),
                            DoneChunk {
                                frames: old(self).queue@[position as int]@.frames() as usize,
                                size_bytes,
                            },
                        ),
                        ..old(self).ledger@
                    })
                    &&& !recorded ==> final(self).ledger == old(self).ledger
                },
                Verdict::Retry { rewind, tries } => {
                    &&& final(self).slots@ == old(self).slots@.update(
                        worker as int,
                        Some(Attempt { tries, frame: 0, ..old(self).slots@[worker as int].unwrap() }),
                    )
                    &&& final(self).ledger == old(self).ledger
                    &&& final(self).progress == old(self).progress - rewind
                    &&& final(self).credited == old(self).credited
                    &&& final(self).failed == old(self).failed
                },
                Verdict::Fatal { rewind, position } => {
                    &&& final(self).slots@ == old(self).slots@.update(
                        worker as int,
                        Some(Attempt { frame: 0, ..old(self).slots@[worker as int].unwrap() }),
                    )
                    &&& final(self).ledger == old(self).ledger
                    &&& final(self).progress == old(self).progress - rewind
                    &&& final(self).credited == old(self).credited
                    &&& final(self).failed == match old(self).failed {
                        Some(first) => Some(first),
                        None => Some(position),
                    }
                },
            },
    {
        if worker >= self.slots.len() {
            return Verdict::Ignored;
        }
        let attempt = match self.slots[worker] {
            Some(attempt) => attempt,
            None => {
                return Verdict::Ignored;
            },
        };
        let ghost before = self.slots@;
        let passes = self.queue[attempt.position].passes;
        proof {
            lemma_in_flight_update(before, worker as int, None);
        }
        match result {
            AttemptResult::Passed => {
                if attempt.pass < passes {
                    let pass = attempt.pass + 1;
                    let moved = Attempt { pass, tries: 1, frame: 0, ..attempt };
                    self.slots.set(worker, Some(moved));
                    proof {
                        lemma_in_flight_update(before, worker as int, Some(moved));
                        self.lemma_slot_changed(old(self), worker as int);
                    }
                    Verdict::NextPass { pass }
                } else {
                    let chunk = &self.queue[attempt.position];
                    let name = name_of(chunk.index);
                    let frames = chunk.frames();
                    let recorded = self.ledger.record(name, frames, size_bytes);
                    self.slots.set(worker, None);
                    self.credited = self.credited + attempt.frame;
                    proof {
                        assert forall|name: Seq<char>| #[trigger]
                            self.ledger@.done.contains_key(name) implies self.start@.contains_key(
                            name,
                        ) || named_in(self.queue@, self.next as int, name) by {
                            if name == chunk_name(self.queue@[attempt.position as int].index as nat) {
                                assert(chunk_name(
                                    self.queue@[attempt.position as int].index as nat,
                                ) == name);
                            } else {
                                assert(old(self).ledger@.done.contains_key(name));
                            }
                        }
                        assert forall|p: int| 0 <= p < self.next implies #[trigger] held(
                            self.slots@,
                            p,
                        ) || self.ledger@.done.contains_key(
                            chunk_name(self.queue@[p].index as nat),
                        ) by {
                            if p != attempt.position && held(before, p) {
                                let v = choose|v: int|
                                    0 <= v < before.len() && #[trigger] before[v] is Some
                                        && before[v].unwrap().position == p;
                                assert(self.slots@[v] is Some);
                            }
                        }
                    }
                    Verdict::Completed { position: attempt.position, recorded }
                }
            },
            _ => {
                let rewind = attempt.frame;
                self.progress = self.progress - rewind;
                if attempt.tries < self.max_tries {
                    let tries = attempt.tries + 1;
                    let moved = Attempt { tries, frame: 0, ..attempt };
                    self.slots.set(worker, Some(moved));
                    proof {
                        lemma_in_flight_update(before, worker as int, Some(moved));
                        self.lemma_slot_changed(old(self), worker as int);
                    }
                    Verdict::Retry { rewind, tries }
                } else {
                    let moved = Attempt { frame: 0, ..attempt };
                    self.slots.set(worker, Some(moved));
                    if self.failed.is_none() {
                        self.failed = Some(attempt.position);
                    }
                    proof {
                        lemma_in_flight_update(before, worker as int, Some(moved));
                        self.lemma_slot_changed(old(self), worker as int);
                    }
                    Verdict::Fatal { rewind, position: attempt.position }
                }
            },
        }
    }

    /// The verdict on the end of an encoder run.
    pub open spec fn verdict_of(&self, worker: usize, result: AttemptResult) -> Verdict {
        if worker >= self.slots@.len() || self.slots@[worker as int] is None {
            Verdict::Ignored
        } else {
            let a = self.slots@[worker as int].unwrap();
            if result is Passed {
                if a.pass < self.queue@[a.position as int].passes {
                    Verdict::NextPass { pass: (a.pass + 1) as u8 }
                } else {
                    Verdict::Completed {
                        position: a.position,
                        recorded: !self.ledger@.done.contains_key(
                            chunk_name(self.queue@[a.position as int].index as nat),
                        ),
                    }
                }
            } else if a.tries < self.max_tries {
                Verdict::Retry { rewind: a.frame, tries: (a.tries + 1) as usize }
            } else {
                Verdict::Fatal { rewind: a.frame, position: a.position }
            }
        }
    }
}

/// When every chunk of the queue is finished, the ledger holds every chunk of
/// the queue besides what it held at the start, and nothing else; and the
/// progress is what the run started with plus the frames of the successful
/// runs: nothing that a failed run reported is left in it.
pub proof fn lemma_finished_run(broker: &Broker)
    requires
        broker.wf(),
        broker.all_done(),
    ensures
        forall|p: int|
            0 <= p < broker.queue@.len() ==> broker.ledger@.done.contains_key(
                chunk_name((#[trigger] broker.queue@[p]).index as nat),
            ),
        forall|name: Seq<char>| #[trigger]
            broker.ledger@.done.contains_key(name) <==> broker.start@.contains_key(name)
                || named_in(broker.queue@, broker.queue@.len() as int, name),
        broker.progress == broker.initial + broker.credited,
{
    lemma_in_flight_idle(broker.slots@);
    assert forall|p: int| 0 <= p < broker.queue@.len() implies broker.ledger@.done.contains_key(
        chunk_name((#[trigger] broker.queue@[p]).index as nat),
    ) by {
        assert(held(broker.slots@, p) || broker.ledger@.done.contains_key(
            chunk_name(broker.queue@[p].index as nat),
        ));
        if held(broker.slots@, p) {
            let v = choose|v: int|
                0 <= v < broker.slots@.len() && #[trigger] broker.slots@[v] is Some
                    && broker.slots@[v].unwrap().position == p;
            assert(broker.slots@[v] is None);
        }
    }
    assert forall|name: Seq<char>| #[trigger]
        broker.ledger@.done.contains_key(name) <==> broker.start@.contains_key(name) || named_in(
            broker.queue@,
            broker.queue@.len() as int,
            name,
        ) by {
        if named_in(broker.queue@, broker.queue@.len() as int, name) {
            let p = choose|p: int|
                0 <= p < broker.queue@.len() && chunk_name(
                    (#[trigger] broker.queue@[p]).index as nat,
                ) == name;
            assert(broker.ledger@.done.contains_key(chunk_name(broker.queue@[p].index as nat)));
        }
    }
}

/// A run that was interrupted and taken up again ends with the same chunks
/// finished as a run that went through, and encodes no chunk again that
/// the interrupted run had finished.
///
/// `through` is the end of a run over the whole queue that started with an
/// empty ledger. `resumed` is the end of a run that started with the ledger
/// of an interrupted run, which held some chunks of the queue and nothing
/// else, over the chunks that this ledger did not hold.
pub proof fn lemma_resumed_run(saved: Seq<Chunk>, through: &Broker, resumed: &Broker)
    requires
        through.wf(),
        through.all_done(),
        through.queue@ == saved,
        through.start@ == Map::<Seq<char>, DoneChunk>::empty(),
        resumed.wf(),
        resumed.all_done(),
        resumed.queue@ == unfinished(saved, resumed.start@),
        forall|name: Seq<char>| #[trigger]
            resumed.start@.contains_key(name) ==> named_in(saved, saved.len() as int, name),
    ensures
        forall|name: Seq<char>| #[trigger]
            resumed.ledger@.done.contains_key(name) <==> through.ledger@.done.contains_key(name),
        forall|p: int|
            0 <= p < resumed.queue@.len() ==> !resumed.start@.contains_key(
                chunk_name((#[trigger] resumed.queue@[p]).index as nat),
            ),
{
    lemma_finished_run(through);
    lemma_finished_run(resumed);
    lemma_unfinished(saved, resumed.start@);
    let left = unfinished(saved, resumed.start@);
    assert forall|name: Seq<char>| #[trigger]
        resumed.ledger@.done.contains_key(name) <==> through.ledger@.done.contains_key(name) by {
        if resumed.ledger@.done.contains_key(name) {
            if !resumed.start@.contains_key(name) {
                assert(named_in(left, left.len() as int, name));
                let p = choose|p: int|
                    0 <= p < left.len() && chunk_name((#[trigger] left[p]).index as nat) == name;
                assert(saved.contains(left[p]));
                let q = choose|q: int| 0 <= q < saved.len() && saved[q] == left[p];
                assert(chunk_name(saved[q].index as nat) == name);
                assert(named_in(saved, saved.len() as int, name));
            }
        }
        if through.ledger@.done.contains_key(name) {
            assert(named_in(saved, saved.len() as int, name));
            let q = choose|q: int|
                0 <= q < saved.len() && chunk_name((#[trigger] saved[q]).index as nat) == name;
            if !is_done(resumed.start@, saved[q]) {
                assert(left.contains(saved[q]));
                let p = choose|p: int| 0 <= p < left.len() && left[p] == saved[q];
                assert(chunk_name(left[p].index as nat) == name);
                assert(named_in(left, left.len() as int, name));
            }
        }
    }
}

} // verus!
