//! Scenes: the half-open frame ranges that a video is cut into, forced
//! key-frames that split a scene in two, and extra splits that keep every
//! scene under a length cap.

use vstd::prelude::*;
use crate::util::lemma_filter_one_more;

verus! {

/// A half-open range of frames, `start_frame` included and `end_frame` not.
#[derive(Debug, Clone, Copy, PartialEq, Eq, Structural)]
pub struct Scene {
    pub start_frame: usize,
    pub end_frame: usize,
}

impl Scene {
    /// Number of frames in the scene.
    pub open spec fn length(self) -> int {
        self.end_frame - self.start_frame
    }

    /// Whether the frame lies in the scene.
    pub open spec fn holds(self, frame: int) -> bool {
        self.start_frame <= frame < self.end_frame
    }

    /// Whether the two scenes share no frame.
    pub open spec fn apart(self, other: Scene) -> bool {
        ||| self.end_frame <= other.start_frame
        ||| other.end_frame <= self.start_frame
        ||| self.end_frame <= self.start_frame
        ||| other.end_frame <= other.start_frame
    }

    /// Number of frames in the scene; zero for a scene that ends before it
    /// starts.
    pub fn frames(&self) -> (count: usize)
        ensures
            count == if self.length() >= 0 { self.length() } else { 0 },
    {
        if self.end_frame >= self.start_frame {
            self.end_frame - self.start_frame
        } else {
            0
        }
    }
}

/// A scene list covers a video of `frames` frames when its scenes are not
/// empty, follow one another without gap or overlap, start at frame 0 and end
/// at the last frame. A video without frames has no scenes.
pub open spec fn scenes_cover(scenes: Seq<Scene>, frames: int) -> bool {
    scenes_chain(scenes, 0, frames)
}

/// The scenes are not empty and follow one another without gap or overlap
/// from frame `from` up to frame `to`.
pub open spec fn scenes_chain(scenes: Seq<Scene>, from: int, to: int) -> bool {
    &&& forall|i: int| 0 <= i < scenes.len() ==> (#[trigger] scenes[i]).start_frame < scenes[i].end_frame
    &&& forall|i: int|
        0 <= i < scenes.len() - 1 ==> (#[trigger] scenes[i]).end_frame == scenes[i + 1].start_frame
    &&& if scenes.len() == 0 {
        from == to
    } else {
        scenes[0].start_frame == from && scenes[scenes.len() - 1].end_frame == to
    }
}

/// Every frame of the video lies in one scene and no more, and no scene
/// reaches beyond the video.
pub open spec fn scenes_partition(scenes: Seq<Scene>, frames: int) -> bool {
    &&& forall|f: int| 0 <= f < frames ==> #[trigger] some_scene_holds(scenes, f)
    &&& forall|i: int, j: int|
        0 <= i < scenes.len() && 0 <= j < scenes.len() && i != j ==> (#[trigger] scenes[i]).apart(
            #[trigger] scenes[j],
        )
    &&& forall|i: int|
        0 <= i < scenes.len() ==> 0 <= (#[trigger] scenes[i]).start_frame && scenes[i].end_frame
            <= frames
}

/// Whether some scene of the list starts at this frame.
pub open spec fn starts_scene(scenes: Seq<Scene>, frame: int) -> bool {
    exists|i: int| 0 <= i < scenes.len() && (#[trigger] scenes[i]).start_frame == frame
}

/// Whether some scene of the list holds this frame.
pub open spec fn some_scene_holds(scenes: Seq<Scene>, frame: int) -> bool {
    exists|i: int| 0 <= i < scenes.len() && (#[trigger] scenes[i]).holds(frame)
}

/// Index of the first scene that holds the frame; the length of the list
/// where none does.
pub open spec fn first_holder(scenes: Seq<Scene>, frame: int) -> int
    decreases scenes.len(),
{
    if scenes.len() == 0 {
        0
    } else if scenes[0].holds(frame) {
        0
    } else {
        1 + first_holder(scenes.drop_first(), frame)
    }
}

/// The scene list with a key-frame forced at `frame`: the first scene that
/// holds the frame is cut in two there, unless it starts at the frame. A
/// frame that no scene holds changes nothing.
#[verifier::opaque]
pub open spec fn with_keyframe(scenes: Seq<Scene>, frame: int) -> Seq<Scene> {
    let at = first_holder(scenes, frame);
    if at < scenes.len() && scenes[at].start_frame != frame {
        scenes.subrange(0, at).push(
            Scene { start_frame: scenes[at].start_frame, end_frame: frame as usize },
        ).push(Scene { start_frame: frame as usize, end_frame: scenes[at].end_frame })
            + scenes.subrange(at + 1, scenes.len() as int)
    } else {
        scenes
    }
}

/// The scene list with key-frames forced one after another, in the order
/// given.
pub open spec fn with_keyframes(scenes: Seq<Scene>, keyframes: Seq<usize>) -> Seq<Scene>
    decreases keyframes.len(),
{
    if keyframes.len() == 0 {
        scenes
    } else {
        with_keyframe(with_keyframes(scenes, keyframes.drop_last()), keyframes.last() as int)
    }
}

/// The key-frames that fall into no scene, in the order given.
pub open spec fn stray_keyframes(scenes: Seq<Scene>, keyframes: Seq<usize>) -> Seq<usize> {
    keyframes.filter(|k: usize| !some_scene_holds(scenes, k as int))
}

/// Number of pieces that a scene of this length is cut into under a cap: one
/// where the scene fits under the cap, else the length divided by the cap,
/// rounded up.
pub open spec fn piece_count(length: int, cap: int) -> int {
    if cap >= 1 && length > cap {
        (length + cap - 1) / cap
    } else {
        1
    }
}

/// Frame at which piece `i` of `count` begins (and piece `i - 1` ends).
pub open spec fn piece_edge(scene: Scene, count: int, i: int) -> int {
    scene.start_frame + (scene.length() * i) / count
}

/// The pieces that a scene is cut into under a cap, as even as whole frames
/// allow.
pub open spec fn pieces(scene: Scene, cap: int) -> Seq<Scene> {
    let count = piece_count(scene.length(), cap);
    Seq::new(
        count as nat,
        |i: int|
            Scene {
                start_frame: piece_edge(scene, count, i) as usize,
                end_frame: piece_edge(scene, count, i + 1) as usize,
            },
    )
}

/// The scene list with every scene cut into its pieces.
pub open spec fn with_extra_splits(scenes: Seq<Scene>, cap: int) -> Seq<Scene>
    decreases scenes.len(),
{
    if scenes.len() == 0 {
        Seq::empty()
    } else {
        with_extra_splits(scenes.drop_last(), cap) + pieces(scenes.last(), cap)
    }
}

/// What [`first_holder`] returns is the first index whose scene holds the
/// frame, and nothing else is.
pub proof fn lemma_first_holder(scenes: Seq<Scene>, frame: int)
    ensures
        0 <= first_holder(scenes, frame) <= scenes.len(),
        first_holder(scenes, frame) < scenes.len() ==> scenes[first_holder(scenes, frame)].holds(
            frame,
        ),
        forall|j: int| 0 <= j < first_holder(scenes, frame) ==> !(#[trigger] scenes[j]).holds(frame),
    decreases scenes.len(),
{
    if scenes.len() == 0 {
    } else if scenes[0].holds(frame) {
    } else {
        let rest = scenes.drop_first();
        lemma_first_holder(rest, frame);
        let at = first_holder(rest, frame);
        assert forall|j: int| 0 <= j < 1 + at implies !(#[trigger] scenes[j]).holds(frame) by {
            if j > 0 {
                assert(scenes[j] == rest[j - 1]);
            }
        }
        if at < rest.len() {
            assert(scenes[1 + at] == rest[at]);
        }
    }
}

/// An index with the properties of the first holder is the first holder.
pub proof fn lemma_first_holder_is(scenes: Seq<Scene>, frame: int, at: int)
    requires
        0 <= at <= scenes.len(),
        at < scenes.len() ==> scenes[at].holds(frame),
        forall|j: int| 0 <= j < at ==> !(#[trigger] scenes[j]).holds(frame),
    ensures
        first_holder(scenes, frame) == at,
{
    lemma_first_holder(scenes, frame);
    let found = first_holder(scenes, frame);
    if found < at {
        assert(!scenes[found].holds(frame));
    } else if at < found {
        assert(!scenes[at].holds(frame));
    }
}

/// Finds the first scene that holds the frame; returns the length of the list
/// where none does.
pub fn find_holder(scenes: &Vec<Scene>, frame: usize) -> (at: usize)
    ensures
        at == first_holder(scenes@, frame as int),
        at <= scenes@.len(),
{
    let mut i: usize = 0;
    while i < scenes.len()
        invariant
            i <= scenes.len(),
            forall|j: int| 0 <= j < i ==> !(#[trigger] scenes@[j]).holds(frame as int),
        decreases scenes.len() - i,
    {
        if scenes[i].start_frame <= frame && frame < scenes[i].end_frame {
            proof {
                lemma_first_holder_is(scenes@, frame as int, i as int);
            }
            return i;
        }
        i += 1;
    }
    proof {
        lemma_first_holder_is(scenes@, frame as int, i as int);
    }
    i
}

/// Forces a key-frame: cuts the first scene that holds the frame in two at
/// the frame, unless the scene starts there. Returns whether some scene held
/// the frame.
pub fn force_keyframe(scenes: &mut Vec<Scene>, frame: usize) -> (held: bool)
    ensures
        final(scenes)@ == with_keyframe(old(scenes)@, frame as int),
        held == some_scene_holds(old(scenes)@, frame as int),
{
    let at = find_holder(scenes, frame);
    proof {
        lemma_first_holder(scenes@, frame as int);
        reveal(with_keyframe);
    }
    if at >= scenes.len() {
        return false;
    }
    let scene = scenes[at];
    if scene.start_frame != frame {
        let ghost before = scenes@;
        scenes.set(at, Scene { start_frame: scene.start_frame, end_frame: frame });
        scenes.insert(at + 1, Scene { start_frame: frame, end_frame: scene.end_frame });
        assert(scenes@ =~= with_keyframe(before, frame as int));
    }
    true
}

/// Forces the key-frames one after another and returns those that fell into
/// no scene.
pub fn force_keyframes(scenes: &mut Vec<Scene>, keyframes: &Vec<usize>) -> (stray: Vec<usize>)
    ensures
        final(scenes)@ == with_keyframes(old(scenes)@, keyframes@),
        stray@ == stray_keyframes(old(scenes)@, keyframes@),
{
    let mut stray: Vec<usize> = Vec::new();
    let mut i: usize = 0;
    proof {
        assert(keyframes@.take(0) =~= Seq::<usize>::empty());
    }
    while i < keyframes.len()
        invariant
            i <= keyframes.len(),
            scenes@ == with_keyframes(old(scenes)@, keyframes@.take(i as int)),
            stray@ == stray_keyframes(old(scenes)@, keyframes@.take(i as int)),
        decreases keyframes.len() - i,
    {
        let frame = keyframes[i];
        let ghost done = keyframes@.take(i as int);
        let ghost more = keyframes@.take(i + 1);
        proof {
            assert(more.drop_last() =~= done);
            assert(more.last() == frame);
            lemma_keyframes_keep_frames(old(scenes)@, done, frame as int);
            lemma_filter_one_more(done, frame, |k: usize| !some_scene_holds(old(scenes)@, k as int));
            assert(more =~= done.push(frame));
        }
        let held = force_keyframe(scenes, frame);
        if !held {
            stray.push(frame);
        }
        i += 1;
    }
    proof {
        assert(keyframes@.take(keyframes@.len() as int) =~= keyframes@);
    }
    stray
}

/// The shape of a scene list after a key-frame was forced: where the first
/// holder starts before the frame, its two halves stand in its place and the
/// scenes after it move up by one; otherwise nothing changed.
pub proof fn lemma_keyframe_shape(scenes: Seq<Scene>, frame: int)
    ensures
        ({
            let at = first_holder(scenes, frame);
            let after = with_keyframe(scenes, frame);
            if at < scenes.len() && scenes[at].start_frame != frame {
                &&& 0 <= at
                &&& scenes[at].start_frame < frame < scenes[at].end_frame
                &&& after.len() == scenes.len() + 1
                &&& forall|i: int| 0 <= i < at ==> #[trigger] after[i] == scenes[i]
                &&& after[at].start_frame == scenes[at].start_frame
                &&& after[at].end_frame == frame
                &&& after[at + 1].start_frame == frame
                &&& after[at + 1].end_frame == scenes[at].end_frame
                &&& forall|i: int| at + 1 < i < after.len() ==> #[trigger] after[i] == scenes[i - 1]
            } else {
                after == scenes
            }
        }),
{
    reveal(with_keyframe);
    lemma_first_holder(scenes, frame);
}

/// Forcing a key-frame leaves the set of frames that the scenes hold as it
/// is.
pub proof fn lemma_keyframe_keeps_frames(scenes: Seq<Scene>, frame: int, other: int)
    ensures
        some_scene_holds(with_keyframe(scenes, frame), other) == some_scene_holds(scenes, other),
{
    lemma_keyframe_shape(scenes, frame);
    let at = first_holder(scenes, frame);
    let after = with_keyframe(scenes, frame);
    if at < scenes.len() && scenes[at].start_frame != frame {
        if some_scene_holds(scenes, other) {
            let i = choose|i: int| 0 <= i < scenes.len() && (#[trigger] scenes[i]).holds(other);
            if i < at {
                assert(after[i] == scenes[i]);
                assert(after[i].holds(other));
            } else if i == at {
                if other < frame {
                    assert(after[at].holds(other));
                } else {
                    assert(after[at + 1].holds(other));
                }
            } else {
                assert(after[i + 1] == scenes[i]);
                assert(after[i + 1].holds(other));
            }
            assert(some_scene_holds(after, other));
        }
        if some_scene_holds(after, other) {
            let i = choose|i: int| 0 <= i < after.len() && (#[trigger] after[i]).holds(other);
            if i < at {
                assert(after[i] == scenes[i]);
                assert(scenes[i].holds(other));
            } else if i == at || i == at + 1 {
                assert(scenes[at].holds(other));
            } else {
                assert(after[i] == scenes[i - 1]);
                assert(scenes[i - 1].holds(other));
            }
            assert(some_scene_holds(scenes, other));
        }
    }
}

/// Forcing key-frames leaves the set of frames that the scenes hold as it
/// is.
pub proof fn lemma_keyframes_keep_frames(scenes: Seq<Scene>, keyframes: Seq<usize>, other: int)
    ensures
        some_scene_holds(with_keyframes(scenes, keyframes), other) == some_scene_holds(
            scenes,
            other,
        ),
    decreases keyframes.len(),
{
    if keyframes.len() > 0 {
        lemma_keyframes_keep_frames(scenes, keyframes.drop_last(), other);
        lemma_keyframe_keeps_frames(
            with_keyframes(scenes, keyframes.drop_last()),
            keyframes.last() as int,
            other,
        );
    }
}

/// Counts the pieces that a scene of this length is cut into under a cap.
pub fn count_pieces(length: usize, cap: usize) -> (count: usize)
    ensures
        count == piece_count(length as int, cap as int),
        1 <= count,
        count > 1 ==> count <= length,
{
    if cap >= 1 && length > cap {
        let count: u128 = (length as u128 + cap as u128 - 1) / (cap as u128);
        proof {
            lemma_piece_count_bounds(length as int, cap as int);
        }
        count as usize
    } else {
        1
    }
}

/// Computes the frame at which piece `i` of `count` begins.
pub fn edge_of_piece(scene: Scene, count: usize, i: usize) -> (frame: usize)
    requires
        scene.start_frame <= scene.end_frame,
        1 <= count,
        i <= count,
    ensures
        frame == piece_edge(scene, count as int, i as int),
        scene.start_frame <= frame <= scene.end_frame,
{
    let length: u128 = (scene.end_frame - scene.start_frame) as u128;
    proof {
        lemma_edge_bounds(length as int, count as int, i as int);
        assert(length * (i as u128) <= 0xffff_ffff_ffff_ffff * 0xffff_ffff_ffff_ffff)
            by (nonlinear_arith)
            requires
                0 <= length <= 0xffff_ffff_ffff_ffff,
                0 <= i <= 0xffff_ffff_ffff_ffff,
        ;
    }
    let offset: u128 = (length * (i as u128)) / (count as u128);
    scene.start_frame + offset as usize
}

/// Cuts every scene that is longer than the cap into pieces of at most the
/// cap, as even as whole frames allow. A cap of zero cuts nothing.
pub fn extra_splits(scenes: &Vec<Scene>, cap: usize) -> (out: Vec<Scene>)
    ensures
        out@ == with_extra_splits(scenes@, cap as int),
{
    let mut out: Vec<Scene> = Vec::new();
    let mut k: usize = 0;
    proof {
        assert(scenes@.take(0) =~= Seq::<Scene>::empty());
    }
    while k < scenes.len()
        invariant
            k <= scenes.len(),
            out@ == with_extra_splits(scenes@.take(k as int), cap as int),
        decreases scenes.len() - k,
    {
        let scene = scenes[k];
        let ghost done = out@;
        proof {
            assert(scenes@.take(k + 1).drop_last() =~= scenes@.take(k as int));
            assert(scenes@.take(k + 1).last() == scene);
        }
        if scene.end_frame <= scene.start_frame {
            out.push(scene);
            proof {
                assert(pieces(scene, cap as int) =~= seq![scene]);
                assert(out@ =~= done + pieces(scene, cap as int));
            }
        } else {
            let count = count_pieces(scene.end_frame - scene.start_frame, cap);
            let mut i: usize = 0;
            while i < count
                invariant
                    i <= count,
                    1 <= count,
                    scene.start_frame < scene.end_frame,
                    count == piece_count(scene.length(), cap as int),
                    out@ == done + pieces(scene, cap as int).take(i as int),
                decreases count - i,
            {
                let start_frame = edge_of_piece(scene, count, i);
                let end_frame = edge_of_piece(scene, count, i + 1);
                out.push(Scene { start_frame, end_frame });
                proof {
                    let all = pieces(scene, cap as int);
                    assert(all.take(i + 1) =~= all.take(i as int).push(all[i as int]));
                }
                i += 1;
            }
            proof {
                let all = pieces(scene, cap as int);
                assert(all.take(count as int) =~= all);
            }
        }
        k += 1;
    }
    proof {
        assert(scenes@.take(scenes@.len() as int) =~= scenes@);
    }
    out
}

/// More than one piece means at least one frame per piece.
pub proof fn lemma_piece_count_bounds(length: int, cap: int)
    requires
        cap >= 1,
        length > cap,
    ensures
        2 <= piece_count(length, cap) <= length,
        length <= piece_count(length, cap) * cap,
        (piece_count(length, cap) - 1) * cap < length,
{
    let count = (length + cap - 1) / cap;
    vstd::arithmetic::div_mod::lemma_fundamental_div_mod(length + cap - 1, cap);
    let rest = (length + cap - 1) % cap;
    assert(0 <= rest < cap) by {
        vstd::arithmetic::div_mod::lemma_mod_bound(length + cap - 1, cap);
    }
    assert(length + cap - 1 == cap * count + rest);
    assert(cap * count == count * cap) by (nonlinear_arith);
    assert(count >= 2) by (nonlinear_arith)
        requires
            cap * count + rest == length + cap - 1,
            0 <= rest < cap,
            length > cap,
            cap >= 1,
    ;
    assert(count <= length) by (nonlinear_arith)
        requires
            cap * count + rest == length + cap - 1,
            0 <= rest < cap,
            length > cap,
            cap >= 1,
    ;
    assert((count - 1) * cap == count * cap - cap) by (nonlinear_arith);
}

/// The edge of a piece lies within the scene's length.
pub proof fn lemma_edge_bounds(length: int, count: int, i: int)
    requires
        0 <= length,
        1 <= count,
        0 <= i <= count,
    ensures
        0 <= (length * i) / count <= length,
        i == 0 ==> (length * i) / count == 0,
        i == count ==> (length * i) / count == length,
{
    assert(0 <= length * i <= length * count) by (nonlinear_arith)
        requires
            0 <= length,
            0 <= i <= count,
    ;
    vstd::arithmetic::div_mod::lemma_div_is_ordered(0, length * i, count);
    vstd::arithmetic::div_mod::lemma_div_is_ordered(length * i, length * count, count);
    vstd::arithmetic::div_mod::lemma_div_multiples_vanish(length, count);
    assert(length * count == count * length) by (nonlinear_arith);
    assert(0int / count == 0) by (nonlinear_arith)
        requires
            count >= 1,
    ;
    if i == 0 {
        assert(length * i == 0) by (nonlinear_arith)
            requires
                i == 0,
        ;
    }
}

/// From one edge to the next a piece grows by at least one frame, where there
/// are no more pieces than frames, and by no more than `cap` frames, where
/// `count` pieces of `cap` frames are enough for the whole length.
pub proof fn lemma_edge_step(length: int, count: int, i: int, cap: int)
    requires
        0 <= length,
        1 <= count,
        0 <= i < count,
        length <= count * cap,
    ensures
        count <= length ==> (length * i) / count < (length * (i + 1)) / count,
        (length * (i + 1)) / count - (length * i) / count <= cap,
        (length * i) / count <= (length * (i + 1)) / count,
{
    let a = length * i;
    let b = length * (i + 1);
    assert(b == a + length) by (nonlinear_arith)
        requires
            a == length * i,
            b == length * (i + 1),
    ;
    assert(0 <= a) by (nonlinear_arith)
        requires
            a == length * i,
            0 <= length,
            0 <= i,
    ;
    vstd::arithmetic::div_mod::lemma_fundamental_div_mod(a, count);
    vstd::arithmetic::div_mod::lemma_fundamental_div_mod(b, count);
    vstd::arithmetic::div_mod::lemma_mod_bound(a, count);
    vstd::arithmetic::div_mod::lemma_mod_bound(b, count);
    let qa = a / count;
    let qb = b / count;
    let ra = a % count;
    let rb = b % count;
    assert(count * (qb - qa) == length - (rb - ra)) by (nonlinear_arith)
        requires
            a == count * qa + ra,
            b == count * qb + rb,
            b == a + length,
    ;
    if count <= length {
        assert(qb - qa > 0) by (nonlinear_arith)
            requires
                count * (qb - qa) == length - (rb - ra),
                0 <= ra < count,
                0 <= rb < count,
                count <= length,
                count >= 1,
        ;
    }
    assert(qb - qa <= cap) by (nonlinear_arith)
        requires
            count * (qb - qa) == length - (rb - ra),
            0 <= ra < count,
            0 <= rb < count,
            length <= count * cap,
            count >= 1,
    ;
    assert(qb - qa >= 0) by (nonlinear_arith)
        requires
            count * (qb - qa) == length - (rb - ra),
            0 <= ra < count,
            0 <= rb < count,
            0 <= length,
            count >= 1,
    ;
}

/// The pieces of a scene that is not empty follow one another from the
/// scene's start to its end, none is empty, and under a cap of one frame or
/// more none is longer than the cap.
pub proof fn lemma_pieces_chain(scene: Scene, cap: int)
    requires
        scene.start_frame < scene.end_frame,
    ensures
        pieces(scene, cap).len() >= 1,
        scenes_chain(pieces(scene, cap), scene.start_frame as int, scene.end_frame as int),
        pieces(scene, cap)[0].start_frame == scene.start_frame,
        cap >= 1 ==> forall|i: int|
            0 <= i < pieces(scene, cap).len() ==> (#[trigger] pieces(scene, cap)[i]).length() <= cap,
{
    let length = scene.length();
    let count = piece_count(length, cap);
    let all = pieces(scene, cap);
    let reach = if cap >= 1 && length > cap { cap } else { length };
    if cap >= 1 && length > cap {
        lemma_piece_count_bounds(length, cap);
    } else {
        assert(length <= count * reach) by (nonlinear_arith)
            requires
                count == 1,
                reach == length,
        ;
    }
    assert forall|i: int| 0 <= i <= count implies scene.start_frame <= #[trigger] piece_edge(
        scene,
        count,
        i,
    ) <= scene.end_frame by {
        lemma_edge_bounds(length, count, i);
    }
    assert forall|i: int| 0 <= i < all.len() implies (#[trigger] all[i]).start_frame
        < all[i].end_frame && all[i].length() <= reach by {
        lemma_edge_step(length, count, i, reach);
        assert(scene.start_frame <= piece_edge(scene, count, i) <= scene.end_frame);
        assert(scene.start_frame <= piece_edge(scene, count, i + 1) <= scene.end_frame);
    }
    assert forall|i: int| 0 <= i < all.len() - 1 implies (#[trigger] all[i]).end_frame == all[i
        + 1].start_frame by {
        assert(scene.start_frame <= piece_edge(scene, count, i + 1) <= scene.end_frame);
    }
    lemma_edge_bounds(length, count, 0);
    lemma_edge_bounds(length, count, count);
    assert(scene.start_frame <= piece_edge(scene, count, 0) <= scene.end_frame);
    assert(scene.start_frame <= piece_edge(scene, count, count) <= scene.end_frame);
    assert(all[0].start_frame == scene.start_frame);
    assert(all[count - 1].end_frame == scene.end_frame);
}

/// Two chains that meet make one chain.
pub proof fn lemma_chain_join(first: Seq<Scene>, second: Seq<Scene>, from: int, mid: int, to: int)
    requires
        scenes_chain(first, from, mid),
        scenes_chain(second, mid, to),
    ensures
        scenes_chain(first + second, from, to),
{
    let all = first + second;
    assert forall|i: int| 0 <= i < all.len() implies (#[trigger] all[i]).start_frame
        < all[i].end_frame by {
        if i < first.len() {
            assert(all[i] == first[i]);
        } else {
            assert(all[i] == second[i - first.len()]);
        }
    }
    assert forall|i: int| 0 <= i < all.len() - 1 implies (#[trigger] all[i]).end_frame == all[i
        + 1].start_frame by {
        if i + 1 < first.len() {
            assert(all[i] == first[i]);
            assert(all[i + 1] == first[i + 1]);
        } else if i < first.len() {
            assert(all[i] == first[i]);
            assert(all[i + 1] == second[0]);
        } else {
            assert(all[i] == second[i - first.len()]);
            assert(all[i + 1] == second[i + 1 - first.len()]);
        }
    }
    if all.len() > 0 {
        if first.len() > 0 {
            assert(all[0] == first[0]);
        } else {
            assert(all[0] == second[0]);
        }
        if second.len() > 0 {
            assert(all[all.len() - 1] == second[second.len() - 1]);
        } else {
            assert(all[all.len() - 1] == first[first.len() - 1]);
        }
    }
}

/// Extra splits keep a chain a chain: the pieces cover what the scenes
/// covered.
pub proof fn lemma_extra_splits_keep_chain(scenes: Seq<Scene>, cap: int, from: int, to: int)
    requires
        scenes_chain(scenes, from, to),
    ensures
        scenes_chain(with_extra_splits(scenes, cap), from, to),
    decreases scenes.len(),
{
    if scenes.len() > 0 {
        let front = scenes.drop_last();
        let last = scenes.last();
        assert forall|i: int| 0 <= i < front.len() implies (#[trigger] front[i]).start_frame
            < front[i].end_frame by {
            assert(front[i] == scenes[i]);
        }
        assert forall|i: int| 0 <= i < front.len() - 1 implies (#[trigger] front[i]).end_frame
            == front[i + 1].start_frame by {
            assert(front[i] == scenes[i]);
            assert(front[i + 1] == scenes[i + 1]);
        }
        if front.len() > 0 {
            assert(front[0] == scenes[0]);
            assert(front[front.len() - 1] == scenes[scenes.len() - 2]);
            assert(scenes[scenes.len() - 2].end_frame == scenes[scenes.len() - 2 + 1].start_frame);
        }
        assert(scenes_chain(front, from, last.start_frame as int));
        lemma_extra_splits_keep_chain(front, cap, from, last.start_frame as int);
        lemma_pieces_chain(last, cap);
        lemma_chain_join(
            with_extra_splits(front, cap),
            pieces(last, cap),
            from,
            last.start_frame as int,
            to,
        );
    }
}

/// After extra splits under a cap of one frame or more, no scene is longer
/// than the cap.
pub proof fn lemma_extra_splits_cap(scenes: Seq<Scene>, cap: int)
    requires
        cap >= 1,
    ensures
        forall|i: int|
            0 <= i < with_extra_splits(scenes, cap).len() ==> (#[trigger] with_extra_splits(
                scenes,
                cap,
            )[i]).length() <= cap,
    decreases scenes.len(),
{
    if scenes.len() > 0 {
        let front = with_extra_splits(scenes.drop_last(), cap);
        let last = scenes.last();
        let tail = pieces(last, cap);
        lemma_extra_splits_cap(scenes.drop_last(), cap);
        if last.start_frame < last.end_frame {
            lemma_pieces_chain(last, cap);
        } else {
            assert(tail =~= seq![last]);
        }
        let all = with_extra_splits(scenes, cap);
        assert forall|i: int| 0 <= i < all.len() implies (#[trigger] all[i]).length() <= cap by {
            if i < front.len() {
                assert(all[i] == front[i]);
            } else {
                assert(all[i] == tail[i - front.len()]);
            }
        }
    }
}

/// Extra splits keep every start: a frame that began a scene still begins
/// one.
pub proof fn lemma_extra_splits_keep_starts(scenes: Seq<Scene>, cap: int, frame: int)
    requires
        starts_scene(scenes, frame),
    ensures
        starts_scene(with_extra_splits(scenes, cap), frame),
    decreases scenes.len(),
{
    let at = choose|i: int| 0 <= i < scenes.len() && (#[trigger] scenes[i]).start_frame == frame;
    let front = with_extra_splits(scenes.drop_last(), cap);
    let last = scenes.last();
    let tail = pieces(last, cap);
    let all = with_extra_splits(scenes, cap);
    if at == scenes.len() - 1 {
        if last.start_frame < last.end_frame {
            lemma_pieces_chain(last, cap);
        } else {
            assert(tail =~= seq![last]);
        }
        assert(all[front.len() as int] == tail[0]);
        assert(tail[0].start_frame == frame);
    } else {
        assert(scenes.drop_last()[at] == scenes[at]);
        lemma_extra_splits_keep_starts(scenes.drop_last(), cap, frame);
        let j = choose|j: int| 0 <= j < front.len() && (#[trigger] front[j]).start_frame == frame;
        assert(all[j] == front[j]);
    }
}

/// Forcing a key-frame keeps a chain a chain.
pub proof fn lemma_keyframe_keeps_chain(scenes: Seq<Scene>, frame: int, from: int, to: int)
    requires
        scenes_chain(scenes, from, to),
    ensures
        scenes_chain(with_keyframe(scenes, frame), from, to),
{
    lemma_keyframe_shape(scenes, frame);
    let at = first_holder(scenes, frame);
    let after = with_keyframe(scenes, frame);
    if at < scenes.len() && scenes[at].start_frame != frame {
        assert forall|i: int| 0 <= i < after.len() implies (#[trigger] after[i]).start_frame
            < after[i].end_frame by {
            if i < at {
                assert(after[i] == scenes[i]);
                assert(scenes[i].start_frame < scenes[i].end_frame);
            } else if i > at + 1 {
                assert(after[i] == scenes[i - 1]);
                assert(scenes[i - 1].start_frame < scenes[i - 1].end_frame);
            }
        }
        assert forall|i: int| 0 <= i < after.len() - 1 implies (#[trigger] after[i]).end_frame
            == after[i + 1].start_frame by {
            if i + 1 < at {
                assert(after[i] == scenes[i]);
                assert(after[i + 1] == scenes[i + 1]);
                assert(scenes[i].end_frame == scenes[i + 1].start_frame);
            } else if i + 1 == at {
                assert(after[i] == scenes[i]);
                assert(scenes[i].end_frame == scenes[i + 1].start_frame);
            } else if i == at {
            } else if i == at + 1 {
                assert(after[i + 1] == scenes[i + 1 - 1]);
                assert(scenes[at].end_frame == scenes[at + 1].start_frame);
            } else {
                assert(after[i] == scenes[i - 1]);
                assert(after[i + 1] == scenes[i + 1 - 1]);
                assert(scenes[i - 1].end_frame == scenes[i - 1 + 1].start_frame);
            }
        }
        if at > 0 {
            assert(after[0] == scenes[0]);
        }
        if at < scenes.len() - 1 {
            assert(after[after.len() - 1] == scenes[after.len() - 1 - 1]);
        }
    }
}

/// Forcing key-frames keeps a chain a chain.
pub proof fn lemma_keyframes_keep_chain(
    scenes: Seq<Scene>,
    keyframes: Seq<usize>,
    from: int,
    to: int,
)
    requires
        scenes_chain(scenes, from, to),
    ensures
        scenes_chain(with_keyframes(scenes, keyframes), from, to),
    decreases keyframes.len(),
{
    if keyframes.len() > 0 {
        lemma_keyframes_keep_chain(scenes, keyframes.drop_last(), from, to);
        lemma_keyframe_keeps_chain(
            with_keyframes(scenes, keyframes.drop_last()),
            keyframes.last() as int,
            from,
            to,
        );
    }
}

/// Forcing a key-frame keeps every start.
pub proof fn lemma_keyframe_keeps_starts(scenes: Seq<Scene>, frame: int, other: int)
    requires
        starts_scene(scenes, other),
    ensures
        starts_scene(with_keyframe(scenes, frame), other),
{
    lemma_keyframe_shape(scenes, frame);
    let at = first_holder(scenes, frame);
    let after = with_keyframe(scenes, frame);
    let i = choose|i: int| 0 <= i < scenes.len() && (#[trigger] scenes[i]).start_frame == other;
    if at < scenes.len() && scenes[at].start_frame != frame {
        if i < at {
            assert(after[i] == scenes[i]);
            assert(after[i].start_frame == other);
        } else if i == at {
            assert(after[at].start_frame == other);
        } else {
            assert(after[i + 1] == scenes[i + 1 - 1]);
            assert(after[i + 1].start_frame == other);
        }
    }
}

/// A forced key-frame that some scene holds begins a scene afterwards.
pub proof fn lemma_keyframe_starts_scene(scenes: Seq<Scene>, frame: int)
    requires
        some_scene_holds(scenes, frame),
    ensures
        starts_scene(with_keyframe(scenes, frame), frame),
{
    lemma_keyframe_shape(scenes, frame);
    lemma_first_holder(scenes, frame);
    let at = first_holder(scenes, frame);
    let after = with_keyframe(scenes, frame);
    let i = choose|i: int| 0 <= i < scenes.len() && (#[trigger] scenes[i]).holds(frame);
    if at >= scenes.len() {
        assert(!scenes[i].holds(frame));
    }
    if scenes[at].start_frame != frame {
        assert(after[at + 1].start_frame == frame);
    } else {
        assert(after[at].start_frame == frame);
    }
}

/// After forcing key-frames, every one of them that fell into a scene begins
/// a scene.
pub proof fn lemma_forced_keyframes_start_scenes(
    scenes: Seq<Scene>,
    keyframes: Seq<usize>,
    which: int,
)
    requires
        0 <= which < keyframes.len(),
        some_scene_holds(scenes, keyframes[which] as int),
    ensures
        starts_scene(with_keyframes(scenes, keyframes), keyframes[which] as int),
    decreases keyframes.len(),
{
    let before = with_keyframes(scenes, keyframes.drop_last());
    let frame = keyframes[which] as int;
    if which == keyframes.len() - 1 {
        lemma_keyframes_keep_frames(scenes, keyframes.drop_last(), frame);
        lemma_keyframe_starts_scene(before, frame);
    } else {
        assert(keyframes.drop_last()[which] == keyframes[which]);
        lemma_forced_keyframes_start_scenes(scenes, keyframes.drop_last(), which);
        lemma_keyframe_keeps_starts(before, keyframes.last() as int, frame);
    }
}

/// In a chain, an earlier scene ends where a later one starts, or before.
pub proof fn lemma_chain_ordered(scenes: Seq<Scene>, from: int, to: int, i: int, j: int)
    requires
        scenes_chain(scenes, from, to),
        0 <= i < j < scenes.len(),
    ensures
        scenes[i].end_frame <= scenes[j].start_frame,
    decreases j - i,
{
    if j == i + 1 {
        assert(scenes[i].end_frame == scenes[i + 1].start_frame);
    } else {
        lemma_chain_ordered(scenes, from, to, i, j - 1);
        assert(scenes[j - 1].end_frame == scenes[j - 1 + 1].start_frame);
    }
}

/// No scene of a chain reaches beyond the chain.
pub proof fn lemma_chain_within(scenes: Seq<Scene>, from: int, to: int, i: int)
    requires
        scenes_chain(scenes, from, to),
        0 <= i < scenes.len(),
    ensures
        from <= scenes[i].start_frame,
        scenes[i].end_frame <= to,
{
    if i > 0 {
        lemma_chain_ordered(scenes, from, to, 0, i);
    }
    if i < scenes.len() - 1 {
        lemma_chain_ordered(scenes, from, to, i, scenes.len() - 1);
    }
}

/// In a chain, every frame from its start up to the end of scene `upto` lies
/// in one of the scenes up to that one.
proof fn lemma_chain_holds_prefix(scenes: Seq<Scene>, from: int, to: int, upto: int, frame: int)
    requires
        scenes_chain(scenes, from, to),
        0 <= upto < scenes.len(),
        from <= frame < scenes[upto].end_frame,
    ensures
        some_scene_holds(scenes, frame),
    decreases upto,
{
    if scenes[upto].start_frame <= frame {
        assert(scenes[upto].holds(frame));
    } else {
        assert(upto > 0);
        assert(scenes[upto - 1].end_frame == scenes[upto - 1 + 1].start_frame);
        lemma_chain_holds_prefix(scenes, from, to, upto - 1, frame);
    }
}

/// A scene list that covers a video splits its frames among the scenes:
/// every frame lies in one scene and no more.
pub proof fn lemma_cover_partitions(scenes: Seq<Scene>, frames: int)
    requires
        scenes_cover(scenes, frames),
    ensures
        scenes_partition(scenes, frames),
{
    assert forall|f: int| 0 <= f < frames implies #[trigger] some_scene_holds(scenes, f) by {
        lemma_chain_holds_prefix(scenes, 0, frames, scenes.len() - 1, f);
    }
    assert forall|i: int, j: int|
        0 <= i < scenes.len() && 0 <= j < scenes.len() && i != j implies (#[trigger] scenes[i]).apart(
        #[trigger] scenes[j],
    ) by {
        if i < j {
            lemma_chain_ordered(scenes, 0, frames, i, j);
        } else {
            lemma_chain_ordered(scenes, 0, frames, j, i);
        }
    }
    assert forall|i: int| 0 <= i < scenes.len() implies 0 <= (#[trigger] scenes[i]).start_frame
        && scenes[i].end_frame <= frames by {
        lemma_chain_within(scenes, 0, frames, i);
    }
}

/// Tells whether some scene of the list starts at this frame.
pub fn scene_starts_at(scenes: &Vec<Scene>, frame: usize) -> (starts: bool)
    ensures
        starts == starts_scene(scenes@, frame as int),
{
    let mut i: usize = 0;
    while i < scenes.len()
        invariant
            i <= scenes.len(),
            forall|j: int| 0 <= j < i ==> (#[trigger] scenes@[j]).start_frame != frame,
        decreases scenes.len() - i,
    {
        if scenes[i].start_frame == frame {
            return true;
        }
        i += 1;
    }
    false
}

/// The frames at which the scenes after the first one start.
pub open spec fn later_starts(scenes: Seq<Scene>) -> Seq<usize> {
    if scenes.len() == 0 {
        Seq::empty()
    } else {
        Seq::new((scenes.len() - 1) as nat, |i: int| scenes[i + 1].start_frame)
    }
}

/// Lists the frames at which the scenes after the first one start: the
/// places at which a video is cut into one segment per scene.
pub fn starts_after_first(scenes: &Vec<Scene>) -> (points: Vec<usize>)
    ensures
        points@ == later_starts(scenes@),
{
    let mut points: Vec<usize> = Vec::new();
    if scenes.len() == 0 {
        return points;
    }
    let mut i: usize = 1;
    while i < scenes.len()
        invariant
            1 <= i <= scenes.len(),
            points@.len() == i - 1,
            forall|j: int| 0 <= j < i - 1 ==> #[trigger] points@[j] == scenes@[j + 1].start_frame,
        decreases scenes.len() - i,
    {
        points.push(scenes[i].start_frame);
        i += 1;
    }
    assert(points@ =~= later_starts(scenes@));
    points
}

/// The key-frames at which a scene starts, in the order given.
pub open spec fn split_candidates(keyframes: Seq<usize>, scenes: Seq<Scene>) -> Seq<usize> {
    keyframes.filter(|k: usize| starts_scene(scenes, k as int))
}

/// Lists the key-frames at which a scene starts.
pub fn scene_keyframes(keyframes: &Vec<usize>, scenes: &Vec<Scene>) -> (points: Vec<usize>)
    ensures
        points@ == split_candidates(keyframes@, scenes@),
{
    let mut points: Vec<usize> = Vec::new();
    let mut i: usize = 0;
    let ghost keep = |k: usize| starts_scene(scenes@, k as int);
    proof {
        assert(keyframes@.take(0) =~= Seq::<usize>::empty());
    }
    while i < keyframes.len()
        invariant
            i <= keyframes.len(),
            keep == |k: usize| starts_scene(scenes@, k as int),
            points@ == keyframes@.take(i as int).filter(keep),
        decreases keyframes.len() - i,
    {
        let frame = keyframes[i];
        proof {
            assert(keyframes@.take(i + 1) =~= keyframes@.take(i as int).push(frame));
            lemma_filter_one_more(keyframes@.take(i as int), frame, keep);
        }
        if scene_starts_at(scenes, frame) {
            points.push(frame);
        }
        i += 1;
    }
    proof {
        assert(keyframes@.take(keyframes@.len() as int) =~= keyframes@);
    }
    points
}

/// Forcing a key-frame makes no scene longer than the longest was.
pub proof fn lemma_keyframe_keeps_cap(scenes: Seq<Scene>, frame: int, cap: int)
    requires
        forall|i: int| 0 <= i < scenes.len() ==> (#[trigger] scenes[i]).length() <= cap,
    ensures
        forall|i: int|
            0 <= i < with_keyframe(scenes, frame).len() ==> (#[trigger] with_keyframe(
                scenes,
                frame,
            )[i]).length() <= cap,
{
    lemma_keyframe_shape(scenes, frame);
    let at = first_holder(scenes, frame);
    let after = with_keyframe(scenes, frame);
    if at < scenes.len() && scenes[at].start_frame != frame {
        assert forall|i: int| 0 <= i < after.len() implies (#[trigger] after[i]).length() <= cap by {
            if i < at {
                assert(after[i] == scenes[i]);
                assert(scenes[i].length() <= cap);
            } else if i == at || i == at + 1 {
                assert(scenes[at].length() <= cap);
            } else {
                assert(after[i] == scenes[i - 1]);
                assert(scenes[i - 1].length() <= cap);
            }
        }
    }
}

/// Forcing key-frames makes no scene longer than the longest was.
pub proof fn lemma_keyframes_keep_cap(scenes: Seq<Scene>, keyframes: Seq<usize>, cap: int)
    requires
        forall|i: int| 0 <= i < scenes.len() ==> (#[trigger] scenes[i]).length() <= cap,
    ensures
        forall|i: int|
            0 <= i < with_keyframes(scenes, keyframes).len() ==> (#[trigger] with_keyframes(
                scenes,
                keyframes,
            )[i]).length() <= cap,
    decreases keyframes.len(),
{
    if keyframes.len() > 0 {
        lemma_keyframes_keep_cap(scenes, keyframes.drop_last(), cap);
        lemma_keyframe_keeps_cap(
            with_keyframes(scenes, keyframes.drop_last()),
            keyframes.last() as int,
            cap,
        );
    }
}

/// Extra splits leave every frame that a scene held in one of the pieces.
pub proof fn lemma_extra_splits_keep_frames(scenes: Seq<Scene>, cap: int, frame: int)
    requires
        some_scene_holds(scenes, frame),
    ensures
        some_scene_holds(with_extra_splits(scenes, cap), frame),
    decreases scenes.len(),
{
    let at = choose|i: int| 0 <= i < scenes.len() && (#[trigger] scenes[i]).holds(frame);
    let front = with_extra_splits(scenes.drop_last(), cap);
    let last = scenes.last();
    let tail = pieces(last, cap);
    let all = with_extra_splits(scenes, cap);
    if at == scenes.len() - 1 {
        lemma_pieces_chain(last, cap);
        lemma_chain_holds_prefix(
            tail,
            last.start_frame as int,
            last.end_frame as int,
            tail.len() - 1,
            frame,
        );
        let j = choose|j: int| 0 <= j < tail.len() && (#[trigger] tail[j]).holds(frame);
        assert(all[front.len() + j] == tail[j]);
    } else {
        assert(scenes.drop_last()[at] == scenes[at]);
        lemma_extra_splits_keep_frames(scenes.drop_last(), cap, frame);
        let j = choose|j: int| 0 <= j < front.len() && (#[trigger] front[j]).holds(frame);
        assert(all[j] == front[j]);
    }
}

/// Extra splits hold no frame that no scene held.
pub proof fn lemma_extra_splits_add_no_frames(scenes: Seq<Scene>, cap: int, frame: int)
    requires
        some_scene_holds(with_extra_splits(scenes, cap), frame),
    ensures
        some_scene_holds(scenes, frame),
    decreases scenes.len(),
{
    let all = with_extra_splits(scenes, cap);
    let j = choose|j: int| 0 <= j < all.len() && (#[trigger] all[j]).holds(frame);
    if scenes.len() > 0 {
        let front = with_extra_splits(scenes.drop_last(), cap);
        let last = scenes.last();
        let tail = pieces(last, cap);
        if j < front.len() {
            assert(all[j] == front[j]);
            lemma_extra_splits_add_no_frames(scenes.drop_last(), cap, frame);
            let i = choose|i: int|
                0 <= i < scenes.drop_last().len() && (#[trigger] scenes.drop_last()[i]).holds(frame);
            assert(scenes[i] == scenes.drop_last()[i]);
        } else {
            assert(all[j] == tail[j - front.len()]);
            if last.start_frame < last.end_frame {
                lemma_pieces_chain(last, cap);
                lemma_chain_within(
                    tail,
                    last.start_frame as int,
                    last.end_frame as int,
                    j - front.len(),
                );
            } else {
                assert(tail =~= seq![last]);
            }
            assert(scenes[scenes.len() - 1].holds(frame));
        }
    }
}

/// Extra splits leave the set of frames that the scenes hold as it is.
pub proof fn lemma_extra_splits_same_frames(scenes: Seq<Scene>, cap: int, frame: int)
    ensures
        some_scene_holds(with_extra_splits(scenes, cap), frame) == some_scene_holds(scenes, frame),
{
    if some_scene_holds(scenes, frame) {
        lemma_extra_splits_keep_frames(scenes, cap, frame);
    }
    if some_scene_holds(with_extra_splits(scenes, cap), frame) {
        lemma_extra_splits_add_no_frames(scenes, cap, frame);
    }
}

/// Tells whether a scene list covers a video of `frames` frames.
pub fn covers(scenes: &Vec<Scene>, frames: usize) -> (covered: bool)
    ensures
        covered == scenes_cover(scenes@, frames as int),
{
    if scenes.len() == 0 {
        return frames == 0;
    }
    if scenes[0].start_frame != 0 || scenes[scenes.len() - 1].end_frame != frames {
        return false;
    }
    let mut i: usize = 0;
    while i < scenes.len()
        invariant
            i <= scenes.len(),
            scenes@.len() > 0,
            forall|j: int| 0 <= j < i ==> (#[trigger] scenes@[j]).start_frame < scenes@[j].end_frame,
            forall|j: int|
                0 <= j < i && j < scenes@.len() - 1 ==> (#[trigger] scenes@[j]).end_frame
                    == scenes@[j + 1].start_frame,
        decreases scenes.len() - i,
    {
        if scenes[i].start_frame >= scenes[i].end_frame {
            return false;
        }
        if i + 1 < scenes.len() && scenes[i].end_frame != scenes[i + 1].start_frame {
            return false;
        }
        i += 1;
    }
    true
}

/// The last cut that is kept of a list of cuts: a cut is kept when it lies
/// within the video, after its first frame and after the cut kept before it.
/// Zero stands for no cut kept.
pub open spec fn last_kept_cut(cuts: Seq<usize>, frames: int) -> int
    decreases cuts.len(),
{
    if cuts.len() == 0 {
        0
    } else if last_kept_cut(cuts.drop_last(), frames) < cuts.last() < frames {
        cuts.last() as int
    } else {
        last_kept_cut(cuts.drop_last(), frames)
    }
}

/// The scenes that end at a kept cut, in order.
pub open spec fn scenes_before_cuts(cuts: Seq<usize>, frames: int) -> Seq<Scene>
    decreases cuts.len(),
{
    if cuts.len() == 0 {
        Seq::empty()
    } else if last_kept_cut(cuts.drop_last(), frames) < cuts.last() < frames {
        scenes_before_cuts(cuts.drop_last(), frames).push(
            Scene {
                start_frame: last_kept_cut(cuts.drop_last(), frames) as usize,
                end_frame: cuts.last(),
            },
        )
    } else {
        scenes_before_cuts(cuts.drop_last(), frames)
    }
}

/// The scenes that a list of cuts makes of a video: a scene ends and the
/// next one starts at every cut that is kept. A video without frames has no
/// scenes.
pub open spec fn scenes_of_cuts(cuts: Seq<usize>, frames: int) -> Seq<Scene> {
    if frames <= 0 {
        Seq::empty()
    } else {
        scenes_before_cuts(cuts, frames).push(
            Scene { start_frame: last_kept_cut(cuts, frames) as usize, end_frame: frames as usize },
        )
    }
}

/// The scenes that end at a kept cut follow one another from the start of
/// the video to the last kept cut, which lies within the video.
pub proof fn lemma_scenes_before_cuts(cuts: Seq<usize>, frames: int)
    requires
        0 < frames <= usize::MAX,
    ensures
        0 <= last_kept_cut(cuts, frames) < frames,
        scenes_chain(scenes_before_cuts(cuts, frames), 0, last_kept_cut(cuts, frames)),
    decreases cuts.len(),
{
    if cuts.len() > 0 {
        let front = cuts.drop_last();
        lemma_scenes_before_cuts(front, frames);
        let before = scenes_before_cuts(front, frames);
        let last = last_kept_cut(front, frames);
        if last < cuts.last() < frames {
            let scene = Scene { start_frame: last as usize, end_frame: cuts.last() };
            assert(scenes_chain(seq![scene], last, cuts.last() as int));
            lemma_chain_join(before, seq![scene], 0, last, cuts.last() as int);
            assert(before + seq![scene] =~= before.push(scene));
        }
    }
}

/// The scenes that a list of cuts makes of a video cover the video.
pub proof fn lemma_scenes_of_cuts_cover(cuts: Seq<usize>, frames: int)
    requires
        0 <= frames <= usize::MAX,
    ensures
        scenes_cover(scenes_of_cuts(cuts, frames), frames),
{
    if frames > 0 {
        lemma_scenes_before_cuts(cuts, frames);
        let before = scenes_before_cuts(cuts, frames);
        let last = last_kept_cut(cuts, frames);
        let scene = Scene { start_frame: last as usize, end_frame: frames as usize };
        assert(scenes_chain(seq![scene], last, frames));
        lemma_chain_join(before, seq![scene], 0, last, frames);
        assert(before + seq![scene] =~= before.push(scene));
    }
}

/// Makes the scenes of a video from the frames at which scenes change.
/// Cuts that are not within the video, or not after the cut before them, are
/// passed over. The scenes cover the video.
pub fn scenes_from_cuts(cuts: &Vec<usize>, frames: usize) -> (scenes: Vec<Scene>)
    ensures
        scenes@ == scenes_of_cuts(cuts@, frames as int),
        scenes_cover(scenes@, frames as int),
{
    let mut scenes: Vec<Scene> = Vec::new();
    proof {
        lemma_scenes_of_cuts_cover(cuts@, frames as int);
    }
    if frames == 0 {
        return scenes;
    }
    let mut last: usize = 0;
    let mut i: usize = 0;
    proof {
        assert(cuts@.take(0) =~= Seq::<usize>::empty());
    }
    while i < cuts.len()
        invariant
            i <= cuts.len(),
            last == last_kept_cut(cuts@.take(i as int), frames as int),
            scenes@ == scenes_before_cuts(cuts@.take(i as int), frames as int),
        decreases cuts.len() - i,
    {
        let cut = cuts[i];
        proof {
            assert(cuts@.take(i + 1).drop_last() =~= cuts@.take(i as int));
            assert(cuts@.take(i + 1).last() == cut);
        }
        if last < cut && cut < frames {
            scenes.push(Scene { start_frame: last, end_frame: cut });
            last = cut;
        }
        i += 1;
    }
    proof {
        assert(cuts@.take(cuts@.len() as int) =~= cuts@);
    }
    scenes.push(Scene { start_frame: last, end_frame: frames });
    scenes
}

/// Where the cuts are given in rising order, every cut within the video
/// starts a scene.
pub proof fn lemma_rising_cuts_start_scenes(cuts: Seq<usize>, frames: int, which: int)
    requires
        0 < frames <= usize::MAX,
        forall|i: int, j: int| 0 <= i < j < cuts.len() ==> cuts[i] < cuts[j],
        0 <= which < cuts.len(),
        0 < cuts[which] < frames,
    ensures
        starts_scene(scenes_of_cuts(cuts, frames), cuts[which] as int),
{
    lemma_rising_cut_kept(cuts, frames, which, cuts.len() as int);
    assert(cuts.take(cuts.len() as int) =~= cuts);
    let before = scenes_before_cuts(cuts, frames);
    let all = scenes_of_cuts(cuts, frames);
    if last_kept_cut(cuts, frames) == cuts[which] {
        assert(all[before.len() as int].start_frame == cuts[which]);
    } else {
        let j = choose|j: int| 0 <= j < before.len() && (#[trigger] before[j]).start_frame == cuts[which];
        assert(all[j] == before[j]);
    }
}

/// Of rising cuts, a cut within the video is the last kept cut of the cuts up
/// to it, and stays the start of a scene or the last kept cut as more cuts
/// follow.
proof fn lemma_rising_cut_kept(cuts: Seq<usize>, frames: int, which: int, upto: int)
    requires
        0 < frames <= usize::MAX,
        forall|i: int, j: int| 0 <= i < j < cuts.len() ==> cuts[i] < cuts[j],
        0 <= which < upto <= cuts.len(),
        0 < cuts[which] < frames,
    ensures
        last_kept_cut(cuts.take(upto), frames) == cuts[which] || starts_scene(
            scenes_before_cuts(cuts.take(upto), frames),
            cuts[which] as int,
        ),
        cuts[which] <= last_kept_cut(cuts.take(upto), frames),
    decreases upto,
{
    let now = cuts.take(upto);
    let front = now.drop_last();
    assert(front =~= cuts.take(upto - 1));
    assert(now.last() == cuts[upto - 1]);
    lemma_last_kept_among(cuts, frames, upto - 1);
    if upto - 1 == which {
        let last = last_kept_cut(front, frames);
        if last != 0 {
            let k = choose|k: int| 0 <= k < upto - 1 && cuts[k] == last;
            assert(cuts[k] < cuts[which]);
        }
    } else {
        lemma_rising_cut_kept(cuts, frames, which, upto - 1);
        let last = last_kept_cut(front, frames);
        let before = scenes_before_cuts(front, frames);
        if last < now.last() < frames {
            let after = scenes_before_cuts(now, frames);
            if last == cuts[which] {
                assert(after[before.len() as int].start_frame == cuts[which]);
            } else {
                let j = choose|j: int|
                    0 <= j < before.len() && (#[trigger] before[j]).start_frame == cuts[which];
                assert(after[j] == before[j]);
            }
        }
    }
}

/// The last kept cut of the first `upto` cuts is zero or one of them.
proof fn lemma_last_kept_among(cuts: Seq<usize>, frames: int, upto: int)
    requires
        0 <= upto <= cuts.len(),
    ensures
        last_kept_cut(cuts.take(upto), frames) == 0 || exists|k: int|
            0 <= k < upto && cuts[k] == last_kept_cut(cuts.take(upto), frames),
    decreases upto,
{
    if upto > 0 {
        let now = cuts.take(upto);
        assert(now.drop_last() =~= cuts.take(upto - 1));
        assert(now.last() == cuts[upto - 1]);
        lemma_last_kept_among(cuts, frames, upto - 1);
        let last = last_kept_cut(cuts.take(upto - 1), frames);
        if last < now.last() < frames {
            assert(cuts[upto - 1] == last_kept_cut(now, frames));
        } else if last != 0 {
            let k = choose|k: int| 0 <= k < upto - 1 && cuts[k] == last;
            assert(cuts[k] == last_kept_cut(now, frames));
        }
    }
}

} // verus!
