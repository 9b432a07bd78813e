//! The done ledger: which chunks of a run are finished, and how large they
//! came out. A resumed run reads the ledger of the interrupted one and only
//! encodes what the ledger does not hold.

use vstd::prelude::*;
use crate::chunk::{chunk_name, name_of, Chunk};
use crate::util::lemma_filter_one_more;

verus! {

/// What the ledger keeps of a finished chunk.
#[derive(Debug, Clone, Copy, PartialEq, Eq, Structural)]
pub struct DoneChunk {
    /// Frames that were encoded.
    pub frames: usize,
    /// Size of the encoded chunk in bytes.
    pub size_bytes: u64,
}

/// A finished chunk under its name.
#[derive(Debug, PartialEq, Eq)]
pub struct DoneEntry {
    pub name: String,
    pub record: DoneChunk,
}

/// The record of a run's finished work.
#[derive(Debug, PartialEq, Eq)]
pub struct DoneLedger {
    /// Number of frames of the whole video.
    pub frames: usize,
    /// The finished chunks, in the order in which they finished.
    pub done: Vec<DoneEntry>,
    /// Whether the audio track is encoded.
    pub audio_done: bool,
}

/// A [`DoneLedger`] as plain values: the finished chunks as a map from chunk
/// name to record.
pub struct LedgerModel {
    pub frames: nat,
    pub done: Map<Seq<char>, DoneChunk>,
    pub audio_done: bool,
}

/// The map that a list of entries stands for. Of two entries under one name
/// the later one counts.
pub open spec fn entries_map(entries: Seq<DoneEntry>) -> Map<Seq<char>, DoneChunk>
    decreases entries.len(),
{
    if entries.len() == 0 {
        Map::empty()
    } else {
        entries_map(entries.drop_last()).insert(entries.last().name@, entries.last().record)
    }
}

/// Whether no two entries have the same name.
pub open spec fn names_distinct(entries: Seq<DoneEntry>) -> bool {
    forall|i: int, j: int|
        0 <= i < entries.len() && 0 <= j < entries.len() && i != j ==> (#[trigger] entries[i]).name@
            != (#[trigger] entries[j]).name@
}

/// Whether no entry before entry `i` has the name of entry `i`.
pub open spec fn is_first_of_name(entries: Seq<DoneEntry>, i: int) -> bool {
    forall|k: int| 0 <= k < i ==> (#[trigger] entries[k]).name@ != entries[i].name@
}

/// Frames of all entries together.
pub open spec fn frames_sum(entries: Seq<DoneEntry>) -> nat
    decreases entries.len(),
{
    if entries.len() == 0 {
        0
    } else {
        frames_sum(entries.drop_last()) + entries.last().record.frames as nat
    }
}

/// Bytes of all entries together.
pub open spec fn bytes_sum(entries: Seq<DoneEntry>) -> nat
    decreases entries.len(),
{
    if entries.len() == 0 {
        0
    } else {
        bytes_sum(entries.drop_last()) + entries.last().record.size_bytes as nat
    }
}

/// A name is a key of the map exactly when some entry has it, and distinct
/// names make every entry the value under its name.
pub proof fn lemma_entries_map(entries: Seq<DoneEntry>)
    ensures
        forall|name: Seq<char>| #[trigger]
            entries_map(entries).contains_key(name) <==> exists|i: int|
                0 <= i < entries.len() && (#[trigger] entries[i]).name@ == name,
        names_distinct(entries) ==> forall|i: int|
            0 <= i < entries.len() ==> entries_map(entries)[(#[trigger] entries[i]).name@]
                == entries[i].record,
        entries_map(entries).dom().finite(),
    decreases entries.len(),
{
    if entries.len() > 0 {
        let front = entries.drop_last();
        let last = entries.last();
        lemma_entries_map(front);
        assert forall|name: Seq<char>| #[trigger]
            entries_map(entries).contains_key(name) <==> exists|i: int|
                0 <= i < entries.len() && (#[trigger] entries[i]).name@ == name by {
            if entries_map(entries).contains_key(name) {
                if name == last.name@ {
                    assert(entries[entries.len() - 1].name@ == name);
                } else {
                    assert(entries_map(front).contains_key(name));
                    let i = choose|i: int| 0 <= i < front.len() && (#[trigger] front[i]).name@ == name;
                    assert(entries[i].name@ == name);
                }
            }
            if exists|i: int| 0 <= i < entries.len() && (#[trigger] entries[i]).name@ == name {
                let i = choose|i: int| 0 <= i < entries.len() && (#[trigger] entries[i]).name@ == name;
                if i < front.len() {
                    assert(front[i].name@ == name);
                }
            }
        }
        if names_distinct(entries) {
            assert(names_distinct(front)) by {
                assert forall|i: int, j: int|
                    0 <= i < front.len() && 0 <= j < front.len() && i != j implies (
                #[trigger] front[i]).name@ != (#[trigger] front[j]).name@ by {
                    assert(front[i] == entries[i]);
                    assert(front[j] == entries[j]);
                }
            }
            assert forall|i: int| 0 <= i < entries.len() implies entries_map(entries)[(
            #[trigger] entries[i]).name@] == entries[i].record by {
                if i < front.len() {
                    assert(front[i] == entries[i]);
                    assert(entries[i].name@ != entries[entries.len() - 1].name@);
                }
            }
        }
    }
}

impl View for DoneLedger {
    type V = LedgerModel;

    open spec fn view(&self) -> LedgerModel {
        LedgerModel {
            frames: self.frames as nat,
            done: entries_map(self.done@),
            audio_done: self.audio_done,
        }
    }
}

impl DoneLedger {
    /// What holds of every ledger that [`DoneLedger::init`] made and the
    /// methods filled: no chunk is recorded twice.
    pub open spec fn wf(&self) -> bool {
        names_distinct(self.done@)
    }

    /// An empty ledger for a video of `total_frames` frames.
    pub fn init(total_frames: usize) -> (ledger: DoneLedger)
        ensures
            ledger.wf(),
            ledger@.frames == total_frames,
            ledger@.done == Map::<Seq<char>, DoneChunk>::empty(),
            !ledger@.audio_done,
    {
        DoneLedger { frames: total_frames, done: Vec::new(), audio_done: false }
    }

    /// A ledger of these entries. Of entries under one name the first is
    /// kept.
    pub fn from_entries(frames: usize, entries: Vec<DoneEntry>, audio_done: bool) -> (ledger:
        DoneLedger)
        ensures
            ledger.wf(),
            ledger.frames == frames,
            ledger.audio_done == audio_done,
            forall|name: Seq<char>| #[trigger]
                ledger@.done.contains_key(name) <==> exists|i: int|
                    0 <= i < entries@.len() && (#[trigger] entries@[i]).name@ == name,
            forall|i: int|
                0 <= i < entries@.len() && is_first_of_name(entries@, i) ==> ledger@.done[(
                #[trigger] entries@[i]).name@] == entries@[i].record,
            names_distinct(entries@) ==> ledger.done@ == entries@,
    {
        let mut ledger = DoneLedger { frames, done: Vec::new(), audio_done };
        let mut rest = entries;
        let ghost mut taken: int = 0;
        proof {
            lemma_entries_map(ledger.done@);
            assert(entries@.take(0) =~= Seq::<DoneEntry>::empty());
            assert(entries@.skip(0) =~= entries@);
        }
        while rest.len() > 0
            invariant
                ledger.wf(),
                ledger.frames == frames,
                ledger.audio_done == audio_done,
                0 <= taken <= entries@.len(),
                rest@ == entries@.skip(taken),
                forall|name: Seq<char>| #[trigger]
                    ledger@.done.contains_key(name) <==> exists|i: int|
                        0 <= i < taken && (#[trigger] entries@[i]).name@ == name,
                forall|i: int|
                    0 <= i < taken && is_first_of_name(entries@, i) ==> ledger@.done[(
                    #[trigger] entries@[i]).name@] == entries@[i].record,
                names_distinct(entries@) ==> ledger.done@ == entries@.take(taken),
            decreases rest.len(),
        {
            let entry = rest.remove(0);
            let ghost before = ledger@.done;
            proof {
                assert(entry == entries@[taken]);
                assert(rest@ =~= entries@.skip(taken + 1));
            }
            let DoneEntry { name, record } = entry;
            let recorded = ledger.record(name, record.frames, record.size_bytes);
            proof {
                assert forall|key: Seq<char>| #[trigger]
                    ledger@.done.contains_key(key) <==> exists|i: int|
                        0 <= i < taken + 1 && (#[trigger] entries@[i]).name@ == key by {
                    if ledger@.done.contains_key(key) {
                        if before.contains_key(key) {
                            let i = choose|i: int|
                                0 <= i < taken && (#[trigger] entries@[i]).name@ == key;
                            assert(entries@[i].name@ == key);
                        } else {
                            assert(entries@[taken].name@ == key);
                        }
                    }
                    if exists|i: int| 0 <= i < taken + 1 && (#[trigger] entries@[i]).name@ == key {
                        let i = choose|i: int|
                            0 <= i < taken + 1 && (#[trigger] entries@[i]).name@ == key;
                        if i < taken {
                            assert(before.contains_key(key));
                        }
                    }
                }
                assert forall|i: int|
                    0 <= i < taken + 1 && is_first_of_name(entries@, i) implies ledger@.done[(
                #[trigger] entries@[i]).name@] == entries@[i].record by {
                    if i < taken {
                        assert(before.contains_key(entries@[i].name@));
                        assert(before[entries@[i].name@] == entries@[i].record);
                    } else {
                        if before.contains_key(entries@[taken].name@) {
                            let k = choose|k: int|
                                0 <= k < taken && (#[trigger] entries@[k]).name@
                                    == entries@[taken].name@;
                            assert(entries@[k].name@ == entries@[taken].name@);
                        }
                        assert(recorded);
                    }
                }
                if names_distinct(entries@) {
                    if before.contains_key(entries@[taken].name@) {
                        let i = choose|i: int|
                            0 <= i < taken && (#[trigger] entries@[i]).name@
                                == entries@[taken].name@;
                        assert(entries@[i].name@ != entries@[taken].name@);
                    }
                    assert(recorded);
                    assert(entries@.take(taken + 1) =~= entries@.take(taken).push(
                        entries@[taken],
                    ));
                    assert(entries@[taken] == (DoneEntry { name, record }));
                }
                taken = taken + 1;
            }
        }
        proof {
            assert(entries@.take(taken) =~= entries@);
        }
        ledger
    }

    /// Finds the entry of the chunk with this name.
    pub fn position_of(&self, name: &String) -> (at: Option<usize>)
        ensures
            match at {
                Some(i) => i < self.done@.len() && self.done@[i as int].name@ == name@
                    && self@.done.contains_key(name@),
                None => !self@.done.contains_key(name@),
            },
    {
        proof {
            lemma_entries_map(self.done@);
        }
        let mut i: usize = 0;
        while i < self.done.len()
            invariant
                i <= self.done.len(),
                forall|j: int| 0 <= j < i ==> (#[trigger] self.done@[j]).name@ != name@,
            decreases self.done.len() - i,
        {
            if self.done[i].name == *name {
                proof {
                    lemma_entries_map(self.done@);
                }
                return Some(i);
            }
            i += 1;
        }
        None
    }

    /// Whether the chunk with this name is finished.
    pub fn contains(&self, name: &String) -> (found: bool)
        ensures
            found == self@.done.contains_key(name@),
    {
        self.position_of(name).is_some()
    }

    /// What the ledger keeps of the chunk with this name.
    pub fn get(&self, name: &String) -> (record: Option<DoneChunk>)
        requires
            self.wf(),
        ensures
            match record {
                Some(r) => self@.done.contains_key(name@) && self@.done[name@] == r,
                None => !self@.done.contains_key(name@),
            },
    {
        proof {
            lemma_entries_map(self.done@);
        }
        match self.position_of(name) {
            Some(i) => Some(self.done[i].record),
            None => None,
        }
    }

    /// Records a finished chunk. A chunk that the ledger holds already is
    /// not recorded again: the ledger stays as it is and `false` comes back.
    pub fn record(&mut self, name: String, frames: usize, size_bytes: u64) -> (recorded: bool)
        requires
            old(self).wf(),
        ensures
            final(self).wf(),
            recorded == !old(self)@.done.contains_key(name@),
            recorded ==> final(self)@ == (LedgerModel {
                done: old(self)@.done.insert(name@, DoneChunk { frames, size_bytes }),
                ..old(self)@
            }),
            recorded ==> final(self).done@ == old(self).done@.push(
                DoneEntry { name, record: DoneChunk { frames, size_bytes } },
            ),
            !recorded ==> *final(self) == *old(self),
    {
        if self.contains(&name) {
            return false;
        }
        proof {
            lemma_entries_map(self.done@);
        }
        let ghost before = self.done@;
        let entry = DoneEntry { name, record: DoneChunk { frames, size_bytes } };
        self.done.push(entry);
        proof {
            assert(self.done@.drop_last() =~= before);
            assert forall|i: int, j: int|
                0 <= i < self.done@.len() && 0 <= j < self.done@.len() && i != j implies (
            #[trigger] self.done@[i]).name@ != (#[trigger] self.done@[j]).name@ by {
                if i < before.len() {
                    assert(self.done@[i] == before[i]);
                }
                if j < before.len() {
                    assert(self.done@[j] == before[j]);
                }
            }
        }
        true
    }

    /// Marks the audio track as encoded.
    pub fn audio_mark_done(&mut self)
        ensures
            final(self)@ == (LedgerModel { audio_done: true, ..old(self)@ }),
            final(self).done == old(self).done,
    {
        self.audio_done = true;
    }

    /// Sets the number of frames of the whole video.
    pub fn set_frames(&mut self, frames: usize)
        ensures
            final(self)@ == (LedgerModel { frames: frames as nat, ..old(self)@ }),
            final(self).done == old(self).done,
    {
        self.frames = frames;
    }

    /// Number of finished chunks.
    pub fn chunks_done(&self) -> (count: usize)
        ensures
            count == self.done@.len(),
    {
        self.done.len()
    }

    /// Frames of all finished chunks together; the highest number there is
    /// where the sum is beyond it.
    pub fn completed_frames(&self) -> (total: usize)
        ensures
            total == if frames_sum(self.done@) <= usize::MAX {
                frames_sum(self.done@)
            } else {
                usize::MAX as nat
            },
    {
        let mut total: usize = 0;
        let mut i: usize = 0;
        assert(self.done@.take(0) =~= Seq::<DoneEntry>::empty());
        while i < self.done.len()
            invariant
                i <= self.done.len(),
                total == if frames_sum(self.done@.take(i as int)) <= usize::MAX {
                    frames_sum(self.done@.take(i as int))
                } else {
                    usize::MAX as nat
                },
            decreases self.done.len() - i,
        {
            proof {
                assert(self.done@.take(i + 1).drop_last() =~= self.done@.take(i as int));
            }
            let frames = self.done[i].record.frames;
            total = if frames <= usize::MAX - total {
                total + frames
            } else {
                usize::MAX
            };
            i += 1;
        }
        assert(self.done@.take(self.done@.len() as int) =~= self.done@);
        total
    }

    /// Bytes of all finished chunks together; the highest number there is
    /// where the sum is beyond it.
    pub fn completed_bytes(&self) -> (total: u64)
        ensures
            total == if bytes_sum(self.done@) <= u64::MAX {
                bytes_sum(self.done@)
            } else {
                u64::MAX as nat
            },
    {
        let mut total: u64 = 0;
        let mut i: usize = 0;
        assert(self.done@.take(0) =~= Seq::<DoneEntry>::empty());
        while i < self.done.len()
            invariant
                i <= self.done.len(),
                total == if bytes_sum(self.done@.take(i as int)) <= u64::MAX {
                    bytes_sum(self.done@.take(i as int))
                } else {
                    u64::MAX as nat
                },
            decreases self.done.len() - i,
        {
            proof {
                assert(self.done@.take(i + 1).drop_last() =~= self.done@.take(i as int));
            }
            let bytes = self.done[i].record.size_bytes;
            total = if bytes <= u64::MAX - total {
                total + bytes
            } else {
                u64::MAX
            };
            i += 1;
        }
        assert(self.done@.take(self.done@.len() as int) =~= self.done@);
        total
    }
}

/// Whether the ledger holds the chunk.
pub open spec fn is_done(done: Map<Seq<char>, DoneChunk>, chunk: Chunk) -> bool {
    done.contains_key(chunk_name(chunk.index as nat))
}

/// The chunks of a queue that the ledger does not hold, in the queue's
/// order.
pub open spec fn unfinished(queue: Seq<Chunk>, done: Map<Seq<char>, DoneChunk>) -> Seq<Chunk> {
    queue.filter(|chunk: Chunk| !is_done(done, chunk))
}

/// Takes the finished chunks out of a queue: what is left is what a resumed
/// run still has to encode.
pub fn retain_unfinished(queue: Vec<Chunk>, ledger: &DoneLedger) -> (left: Vec<Chunk>)
    ensures
        left@ == unfinished(queue@, ledger@.done),
{
    let mut rest = queue;
    let mut left: Vec<Chunk> = Vec::new();
    let ghost keep = |chunk: Chunk| !is_done(ledger@.done, chunk);
    let ghost mut taken: int = 0;
    proof {
        assert(queue@.take(0) =~= Seq::<Chunk>::empty());
        assert(queue@.skip(0) =~= queue@);
    }
    while rest.len() > 0
        invariant
            0 <= taken <= queue@.len(),
            rest@ == queue@.skip(taken),
            left@ == queue@.take(taken).filter(keep),
            keep == |chunk: Chunk| !is_done(ledger@.done, chunk),
        decreases rest.len(),
    {
        let chunk = rest.remove(0);
        proof {
            assert(chunk == queue@[taken]);
            assert(rest@ =~= queue@.skip(taken + 1));
            assert(queue@.take(taken + 1) =~= queue@.take(taken).push(chunk));
            lemma_filter_one_more(queue@.take(taken), chunk, keep);
            taken = taken + 1;
        }
        let name = name_of(chunk.index);
        if !ledger.contains(&name) {
            left.push(chunk);
        }
    }
    proof {
        assert(queue@.take(taken) =~= queue@);
    }
    left
}

/// What is left of a queue after the finished chunks are taken out: no chunk
/// that the ledger holds is left, every other chunk of the queue is, and
/// nothing is left that was not in the queue.
pub proof fn lemma_unfinished(queue: Seq<Chunk>, done: Map<Seq<char>, DoneChunk>)
    ensures
        forall|j: int|
            0 <= j < unfinished(queue, done).len() ==> !is_done(
                done,
                #[trigger] unfinished(queue, done)[j],
            ),
        forall|j: int|
            0 <= j < unfinished(queue, done).len() ==> queue.contains(
                #[trigger] unfinished(queue, done)[j],
            ),
        forall|i: int|
            0 <= i < queue.len() && !is_done(done, queue[i]) ==> unfinished(queue, done).contains(
                #[trigger] queue[i],
            ),
    decreases queue.len(),
{
    reveal(Seq::filter);
    let keep = |chunk: Chunk| !is_done(done, chunk);
    let left = unfinished(queue, done);
    if queue.len() > 0 {
        let front = queue.drop_last();
        let last = queue.last();
        lemma_unfinished(front, done);
        let front_left = unfinished(front, done);
        assert(front_left == front.filter(keep));
        assert forall|j: int| 0 <= j < left.len() implies !is_done(done, #[trigger] left[j])
            && queue.contains(left[j]) by {
            if j < front_left.len() {
                assert(left[j] == front_left[j]);
                assert(front.contains(front_left[j]));
                let i = choose|i: int| 0 <= i < front.len() && front[i] == front_left[j];
                assert(queue[i] == front[i]);
            } else {
                assert(left[j] == last);
                assert(queue[queue.len() - 1] == last);
            }
        }
        assert forall|i: int| 0 <= i < queue.len() && !is_done(done, queue[i]) implies left.contains(
            #[trigger] queue[i],
        ) by {
            if i < front.len() {
                assert(front[i] == queue[i]);
                assert(front_left.contains(front[i]));
                let j = choose|j: int| 0 <= j < front_left.len() && front_left[j] == front[i];
                assert(left[j] == front_left[j]);
            } else {
                assert(left[left.len() - 1] == last);
            }
        }
    }
}

} // verus!
