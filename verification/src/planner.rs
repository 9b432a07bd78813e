//! The chunk planner's building blocks: the source commands of the four
//! strategies, and the order in which chunks are handed out.

use vstd::prelude::*;
use crate::chunk::{push_string, push_text, Chunk, ChunkModel};
use crate::scenes::{lemma_cover_partitions, scenes_cover, Scene};
use crate::util::{
    append_decimal,
    decimal_string,
    decimal_text,
    lemma_move_keeps,
    lemma_nothing_there,
};
use rand::seq::SliceRandom;

verus! {

/// The order in which chunks are handed to workers.
#[derive(Debug, Clone, Copy, PartialEq, Eq, Structural)]
pub enum ChunkOrdering {
    /// Most frames first; equally long chunks by index.
    LongestFirst,
    /// Fewest frames first; equally long chunks by index.
    ShortestFirst,
    /// By index.
    Sequential,
    /// Shuffled.
    Random,
}

/// The filter that keeps the frames from `start` up to, not including,
/// `end`.
pub open spec fn select_filter(start: nat, end: nat) -> Seq<char> {
    "select=between(n\\,"@ + decimal_text(start) + "\\,"@ + decimal_text((end - 1) as nat) + ")"@
}

/// The command that decodes a container file and writes the frames from
/// `start` up to, not including, `end` to standard output.
pub open spec fn select_command(
    source: Seq<char>,
    start: nat,
    end: nat,
    pix_format: Seq<char>,
) -> Seq<Seq<char>> {
    Seq::empty().push("ffmpeg"@).push("-y"@).push("-hide_banner"@).push("-loglevel"@).push(
        "error"@,
    ).push("-i"@).push(source).push("-vf"@).push(select_filter(start, end)).push("-pix_fmt"@).push(
        pix_format,
    ).push("-strict"@).push("-1"@).push("-f"@).push("yuv4mpegpipe"@).push("-"@)
}

/// The command that asks a frame-server script for the frames from `start`
/// up to, not including, `end`. The frame server counts its last frame in.
pub open spec fn script_command(script: Seq<char>, start: nat, end: nat) -> Seq<Seq<char>> {
    Seq::empty().push("vspipe"@).push(script).push("-c"@).push("y4m"@).push("-"@).push("-s"@).push(
        decimal_text(start),
    ).push("-e"@).push(decimal_text((end - 1) as nat))
}

/// The command that decodes a whole segment file to standard output.
pub open spec fn segment_command(file: Seq<char>, pix_format: Seq<char>) -> Seq<Seq<char>> {
    Seq::empty().push("ffmpeg"@).push("-y"@).push("-hide_banner"@).push("-loglevel"@).push(
        "error"@,
    ).push("-i"@).push(file).push("-strict"@).push("-1"@).push("-pix_fmt"@).push(pix_format).push(
        "-f"@,
    ).push("yuv4mpegpipe"@).push("-"@)
}

/// Builds [`select_command`].
pub fn compose_select_command(source: &str, start: usize, end: usize, pix_format: &str) -> (cmd:
    Vec<String>)
    requires
        start < end,
    ensures
        cmd.deep_view() == select_command(source@, start as nat, end as nat, pix_format@),
{
    let mut filter = String::from_str("select=between(n\\,");
    append_decimal(&mut filter, start);
    filter.append("\\,");
    append_decimal(&mut filter, end - 1);
    filter.append(")");
    let mut cmd: Vec<String> = Vec::new();
    assert(cmd.deep_view() =~= Seq::<Seq<char>>::empty());
    push_text(&mut cmd, "ffmpeg");
    push_text(&mut cmd, "-y");
    push_text(&mut cmd, "-hide_banner");
    push_text(&mut cmd, "-loglevel");
    push_text(&mut cmd, "error");
    push_text(&mut cmd, "-i");
    push_text(&mut cmd, source);
    push_text(&mut cmd, "-vf");
    push_string(&mut cmd, filter);
    push_text(&mut cmd, "-pix_fmt");
    push_text(&mut cmd, pix_format);
    push_text(&mut cmd, "-strict");
    push_text(&mut cmd, "-1");
    push_text(&mut cmd, "-f");
    push_text(&mut cmd, "yuv4mpegpipe");
    push_text(&mut cmd, "-");
    cmd
}

/// Builds [`script_command`].
pub fn compose_script_command(script: &str, start: usize, end: usize) -> (cmd: Vec<String>)
    requires
        start < end,
    ensures
        cmd.deep_view() == script_command(script@, start as nat, end as nat),
{
    let mut cmd: Vec<String> = Vec::new();
    assert(cmd.deep_view() =~= Seq::<Seq<char>>::empty());
    push_text(&mut cmd, "vspipe");
    push_text(&mut cmd, script);
    push_text(&mut cmd, "-c");
    push_text(&mut cmd, "y4m");
    push_text(&mut cmd, "-");
    push_text(&mut cmd, "-s");
    push_string(&mut cmd, decimal_string(start));
    push_text(&mut cmd, "-e");
    push_string(&mut cmd, decimal_string(end - 1));
    cmd
}

/// Builds [`segment_command`].
pub fn compose_segment_command(file: &str, pix_format: &str) -> (cmd: Vec<String>)
    ensures
        cmd.deep_view() == segment_command(file@, pix_format@),
{
    let mut cmd: Vec<String> = Vec::new();
    assert(cmd.deep_view() =~= Seq::<Seq<char>>::empty());
    push_text(&mut cmd, "ffmpeg");
    push_text(&mut cmd, "-y");
    push_text(&mut cmd, "-hide_banner");
    push_text(&mut cmd, "-loglevel");
    push_text(&mut cmd, "error");
    push_text(&mut cmd, "-i");
    push_text(&mut cmd, file);
    push_text(&mut cmd, "-strict");
    push_text(&mut cmd, "-1");
    push_text(&mut cmd, "-pix_fmt");
    push_text(&mut cmd, pix_format);
    push_text(&mut cmd, "-f");
    push_text(&mut cmd, "yuv4mpegpipe");
    push_text(&mut cmd, "-");
    cmd
}

/// Whether chunk `a` may stand before chunk `b` in a queue of this order.
pub open spec fn goes_before(ordering: ChunkOrdering, a: ChunkModel, b: ChunkModel) -> bool {
    match ordering {
        ChunkOrdering::LongestFirst => a.frames() > b.frames() || (a.frames() == b.frames()
            && a.index <= b.index),
        ChunkOrdering::ShortestFirst => a.frames() < b.frames() || (a.frames() == b.frames()
            && a.index <= b.index),
        ChunkOrdering::Sequential => a.index <= b.index,
        ChunkOrdering::Random => true,
    }
}

/// Whether every chunk of the queue may stand before all that follow it.
pub open spec fn is_ordered(queue: Seq<Chunk>, ordering: ChunkOrdering) -> bool {
    forall|i: int, j: int|
        0 <= i < j < queue.len() ==> goes_before(ordering, (#[trigger] queue[i])@, (
        #[trigger] queue[j])@)
}

/// Tells whether chunk `a` may stand before chunk `b`.
pub fn may_go_before(ordering: ChunkOrdering, a: &Chunk, b: &Chunk) -> (before: bool)
    ensures
        before == goes_before(ordering, a@, b@),
{
    match ordering {
        ChunkOrdering::LongestFirst => a.frames() > b.frames() || (a.frames() == b.frames()
            && a.index <= b.index),
        ChunkOrdering::ShortestFirst => a.frames() < b.frames() || (a.frames() == b.frames()
            && a.index <= b.index),
        ChunkOrdering::Sequential => a.index <= b.index,
        ChunkOrdering::Random => true,
    }
}

/// Finds a chunk that may stand before every chunk of the queue.
pub fn find_first(queue: &Vec<Chunk>, ordering: ChunkOrdering) -> (at: usize)
    requires
        queue@.len() > 0,
    ensures
        at < queue@.len(),
        forall|j: int| 0 <= j < queue@.len() ==> goes_before(ordering, queue@[at as int]@, (#[trigger] queue@[j])@),
{
    let mut best: usize = 0;
    let mut i: usize = 1;
    while i < queue.len()
        invariant
            1 <= i <= queue.len(),
            best < i,
            forall|j: int| 0 <= j < i ==> goes_before(ordering, queue@[best as int]@, (#[trigger] queue@[j])@),
        decreases queue.len() - i,
    {
        if !may_go_before(ordering, &queue[best], &queue[i]) {
            best = i;
        }
        i += 1;
    }
    best
}

/// Shuffles the queue with the thread's random number generator.
///
/// Calls `rand::seq::SliceRandom::shuffle` with `rand::thread_rng()`. The
/// shuffle swaps elements of the slice and does nothing else to it, so the
/// queue holds the same chunks afterwards, each as often as before; nothing
/// is claimed of their order.
#[verifier::external_body]
fn shuffle(queue: &mut Vec<Chunk>)
    ensures
        final(queue)@.to_multiset() == old(queue)@.to_multiset(),
{
    queue.shuffle(&mut rand::thread_rng());
}

/// Puts the queue into the order asked for. The result holds the same chunks,
/// each as often as before. For the longest-first and shortest-first orders
/// every chunk may stand before all that follow it; the sequential order
/// leaves the queue as it is; the random order shuffles it.
pub fn order_queue(queue: Vec<Chunk>, ordering: ChunkOrdering) -> (ordered: Vec<Chunk>)
    ensures
        ordered@.to_multiset() == queue@.to_multiset(),
        ordered@.len() == queue@.len(),
        ordering is LongestFirst || ordering is ShortestFirst ==> is_ordered(ordered@, ordering),
        ordering is Sequential ==> ordered@ == queue@,
{
    match ordering {
        ChunkOrdering::Sequential => queue,
        ChunkOrdering::Random => {
            let mut shuffled = queue;
            shuffle(&mut shuffled);
            proof {
                vstd::seq_lib::to_multiset_len(shuffled@);
                vstd::seq_lib::to_multiset_len(queue@);
            }
            shuffled
        },
        _ => {
            let mut rest = queue;
            let mut ordered: Vec<Chunk> = Vec::new();
            proof {
                lemma_nothing_there(rest@, ordered@);
            }
            while rest.len() > 0
                invariant
                    ordering is LongestFirst || ordering is ShortestFirst,
                    ordered@.to_multiset().add(rest@.to_multiset()) == queue@.to_multiset(),
                    ordered@.len() + rest@.len() == queue@.len(),
                    is_ordered(ordered@, ordering),
                    forall|i: int, j: int|
                        0 <= i < ordered@.len() && 0 <= j < rest@.len() ==> goes_before(
                            ordering,
                            (#[trigger] ordered@[i])@,
                            (#[trigger] rest@[j])@,
                        ),
                decreases rest.len(),
            {
                let at = find_first(&rest, ordering);
                let ghost before_rest = rest@;
                let ghost before_ordered = ordered@;
                let chunk = rest.remove(at);
                ordered.push(chunk);
                proof {
                    lemma_move_keeps(before_ordered, before_rest, at as int);
                    assert forall|i: int, j: int|
                        0 <= i < ordered@.len() && 0 <= j < rest@.len() implies goes_before(
                        ordering,
                        (#[trigger] ordered@[i])@,
                        (#[trigger] rest@[j])@,
                    ) by {
                        let k = if j < at { j } else { j + 1 };
                        assert(rest@[j] == before_rest[k]);
                        if i < before_ordered.len() {
                            assert(ordered@[i] == before_ordered[i]);
                        }
                    }
                    assert forall|i: int, j: int| 0 <= i < j < ordered@.len() implies goes_before(
                        ordering,
                        (#[trigger] ordered@[i])@,
                        (#[trigger] ordered@[j])@,
                    ) by {
                        assert(ordered@[i] == before_ordered[i]);
                        if j < before_ordered.len() {
                            assert(ordered@[j] == before_ordered[j]);
                        } else {
                            assert(ordered@[j] == before_rest[at as int]);
                        }
                    }
                }
            }
            proof {
                lemma_nothing_there(ordered@, rest@);
            }
            ordered
        },
    }
}

/// The chunks of the queue split the video's frames among themselves: every
/// frame lies in one chunk and no more, and no chunk reaches beyond the
/// video.
pub open spec fn queue_partitions(queue: Seq<Chunk>, frames: int) -> bool {
    &&& forall|f: int| 0 <= f < frames ==> #[trigger] some_chunk_holds(queue, f)
    &&& forall|i: int, j: int|
        0 <= i < queue.len() && 0 <= j < queue.len() && i != j ==> (#[trigger] queue[i]).range().apart(
            (#[trigger] queue[j]).range(),
        )
    &&& forall|i: int|
        0 <= i < queue.len() ==> (#[trigger] queue[i]).end_frame <= frames
}

/// Whether some chunk of the queue holds the frame.
pub open spec fn some_chunk_holds(queue: Seq<Chunk>, frame: int) -> bool {
    exists|i: int| 0 <= i < queue.len() && (#[trigger] queue[i]).range().holds(frame)
}

/// Whether chunk `i` of the queue has the frames of scene `i`, for every `i`.
pub open spec fn follows_scenes(queue: Seq<Chunk>, scenes: Seq<Scene>) -> bool {
    &&& queue.len() == scenes.len()
    &&& forall|i: int| 0 <= i < queue.len() ==> (#[trigger] queue[i]).range() == scenes[i]
}

/// A queue with one chunk per scene splits the frames of the video that the
/// scenes cover.
pub proof fn lemma_scene_queue_partitions(queue: Seq<Chunk>, scenes: Seq<Scene>, frames: int)
    requires
        follows_scenes(queue, scenes),
        scenes_cover(scenes, frames),
    ensures
        queue_partitions(queue, frames),
{
    lemma_cover_partitions(scenes, frames);
    assert forall|f: int| 0 <= f < frames implies #[trigger] some_chunk_holds(queue, f) by {
        assert(crate::scenes::some_scene_holds(scenes, f));
        let i = choose|i: int| 0 <= i < scenes.len() && (#[trigger] scenes[i]).holds(f);
        assert(queue[i].range().holds(f));
    }
    assert forall|i: int, j: int|
        0 <= i < queue.len() && 0 <= j < queue.len() && i != j implies (#[trigger] queue[i]).range().apart(
        (#[trigger] queue[j]).range(),
    ) by {
        assert(scenes[i].apart(scenes[j]));
    }
    assert forall|i: int| 0 <= i < queue.len() implies (#[trigger] queue[i]).end_frame
        <= frames by {
        assert(scenes[i].end_frame <= frames);
    }
}

/// Putting a queue into another order does not change how it splits the
/// frames: a queue that holds the same chunks as one that splits the video's
/// frames splits them too.
pub proof fn lemma_reordered_queue_partitions(before: Seq<Chunk>, after: Seq<Chunk>, frames: int)
    requires
        before.to_multiset() == after.to_multiset(),
        before.no_duplicates(),
        queue_partitions(before, frames),
    ensures
        queue_partitions(after, frames),
        after.no_duplicates(),
{
    broadcast use vstd::seq_lib::group_to_multiset_ensures;

    before.lemma_multiset_has_no_duplicates();
    after.lemma_multiset_has_no_duplicates_conv();
    assert forall|f: int| 0 <= f < frames implies #[trigger] some_chunk_holds(after, f) by {
        assert(some_chunk_holds(before, f));
        let i = choose|i: int| 0 <= i < before.len() && (#[trigger] before[i]).range().holds(f);
        assert(before.contains(before[i]));
        assert(after.to_multiset().count(before[i]) > 0);
        assert(after.contains(before[i]));
        let j = choose|j: int| 0 <= j < after.len() && after[j] == before[i];
        assert(after[j].range().holds(f));
    }
    assert forall|i: int, j: int|
        0 <= i < after.len() && 0 <= j < after.len() && i != j implies (#[trigger] after[i]).range().apart(
        (#[trigger] after[j]).range(),
    ) by {
        assert(after.contains(after[i]));
        assert(after.contains(after[j]));
        assert(before.to_multiset().count(after[i]) > 0);
        assert(before.to_multiset().count(after[j]) > 0);
        assert(before.contains(after[i]));
        assert(before.contains(after[j]));
        let a = choose|a: int| 0 <= a < before.len() && before[a] == after[i];
        let b = choose|b: int| 0 <= b < before.len() && before[b] == after[j];
        assert(after[i] != after[j]);
        assert(before[a].range().apart(before[b].range()));
    }
    assert forall|i: int| 0 <= i < after.len() implies (#[trigger] after[i]).end_frame
        <= frames by {
        assert(after.contains(after[i]));
        assert(before.to_multiset().count(after[i]) > 0);
        assert(before.contains(after[i]));
        let a = choose|a: int| 0 <= a < before.len() && before[a] == after[i];
        assert(before[a].end_frame <= frames);
    }
}

} // verus!
