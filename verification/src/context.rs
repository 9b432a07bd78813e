//! The context of a run: its settings, the number of frames of the video,
//! and the planning that turns scenes into a queue of chunks.

use vstd::prelude::*;
use crate::chunk::{
    clone_texts,
    output_extension_spec,
    Chunk,
    ChunkModel,
    Input,
    InputModel,
};
use crate::ledger::{retain_unfinished, unfinished, DoneLedger, LedgerModel};
use crate::planner::{
    compose_script_command,
    compose_segment_command,
    compose_select_command,
    follows_scenes,
    is_ordered,
    lemma_reordered_queue_partitions,
    lemma_scene_queue_partitions,
    order_queue,
    queue_partitions,
    script_command,
    segment_command,
    select_command,
};
use crate::scenes::{
    lemma_chain_ordered,
    lemma_chain_within,
    lemma_extra_splits_keep_frames,
    lemma_extra_splits_same_frames,
    lemma_keyframes_keep_cap,
    later_starts,
    scene_keyframes,
    split_candidates,
    starts_after_first,
    extra_splits,
    force_keyframes,
    lemma_extra_splits_cap,
    lemma_extra_splits_keep_chain,
    lemma_forced_keyframes_start_scenes,
    lemma_keyframes_keep_chain,
    scenes_cover,
    some_scene_holds,
    starts_scene,
    stray_keyframes,
    with_extra_splits,
    with_keyframes,
    Scene,
};
use crate::settings::{ArgsError, ChunkMethod, EncodeArgs, InputPixelFormat, SplitMethod};
use crate::util::{append_decimal, decimal_text};

verus! {

/// The ways of planning a queue.
#[derive(Debug, Clone, Copy, PartialEq, Eq, Structural)]
pub enum Strategy {
    /// One chunk per scene, the frames asked of a frame-server script.
    Script,
    /// One chunk per scene, the frames selected out of the whole file.
    Select,
    /// One chunk per segment file.
    Segment,
    /// One chunk per scene, the frames selected out of a segment file.
    Hybrid,
}

/// Why no queue of chunks could be planned.
#[derive(Debug, Clone, Copy, PartialEq, Eq, Structural)]
pub enum PlannerError {
    /// Scenes were to be detected, and no detected scenes were given.
    MissingSceneDetection,
    /// The strategy plans a chunk per scene, and the scene with this index
    /// has no frames.
    EmptyScene { strategy: Strategy, index: usize },
    /// The strategy reads a container file, and the input is a script.
    NotAVideo { strategy: Strategy },
    /// The strategy reads a frame-server script, and there is none for the
    /// container file.
    MissingScript,
    /// The segment strategy was given no segment files.
    NoSegments,
    /// The hybrid strategy found no key-frame that starts a scene.
    NoSplitPoint,
    /// A run is to be taken up again, and no saved queue was given.
    MissingQueue,
}

/// The name of a strategy.
pub open spec fn strategy_name(strategy: Strategy) -> Seq<char> {
    match strategy {
        Strategy::Script => "script"@,
        Strategy::Select => "select"@,
        Strategy::Segment => "segment"@,
        Strategy::Hybrid => "hybrid"@,
    }
}

/// What is said of a queue that could not be planned: the strategy, and
/// what it lacked.
pub open spec fn diagnostic_text(error: PlannerError) -> Seq<char> {
    match error {
        PlannerError::MissingSceneDetection => "scenes: no detected scenes were given"@,
        PlannerError::EmptyScene { strategy, index } => strategy_name(strategy) + ": scene "@
            + decimal_text(index as nat) + " has no frames"@,
        PlannerError::NotAVideo { strategy } => strategy_name(strategy)
            + ": the input is no container file"@,
        PlannerError::MissingScript => "script: no frame-server script was made for the input"@,
        PlannerError::NoSegments => "segment: no segment files were found"@,
        PlannerError::NoSplitPoint => "hybrid: no key-frame starts a scene"@,
        PlannerError::MissingQueue => "resume: no saved queue was given"@,
    }
}

impl Strategy {
    /// The name of the strategy.
    pub fn name(&self) -> (name: &'static str)
        ensures
            name@ == strategy_name(*self),
    {
        match self {
            Strategy::Script => "script",
            Strategy::Select => "select",
            Strategy::Segment => "segment",
            Strategy::Hybrid => "hybrid",
        }
    }
}

impl PlannerError {
    /// Words why no queue could be planned.
    pub fn diagnostic(&self) -> (text: String)
        ensures
            text@ == diagnostic_text(*self),
    {
        match self {
            PlannerError::MissingSceneDetection => String::from_str(
                "scenes: no detected scenes were given",
            ),
            PlannerError::EmptyScene { strategy, index } => {
                let mut text = String::from_str(strategy.name());
                text.append(": scene ");
                append_decimal(&mut text, *index);
                text.append(" has no frames");
                text
            },
            PlannerError::NotAVideo { strategy } => {
                let mut text = String::from_str(strategy.name());
                text.append(": the input is no container file");
                text
            },
            PlannerError::MissingScript => String::from_str(
                "script: no frame-server script was made for the input",
            ),
            PlannerError::NoSegments => String::from_str("segment: no segment files were found"),
            PlannerError::NoSplitPoint => String::from_str("hybrid: no key-frame starts a scene"),
            PlannerError::MissingQueue => String::from_str("resume: no saved queue was given"),
        }
    }
}

/// A run: its settings and what it has found out about the video.
#[derive(Debug)]
pub struct Av1anContext {
    /// Number of frames of the video; zero while unknown.
    pub frames: usize,
    /// The frame-server script that was generated for a container file.
    pub vs_script: Option<String>,
    /// The settings.
    pub args: EncodeArgs,
}

impl Av1anContext {
    /// A run with these settings, if they are sound.
    pub fn new(args: EncodeArgs) -> (result: Result<Av1anContext, ArgsError>)
        ensures
            match result {
                Ok(context) => args.fault() is None && context.args == args && context.frames == 0
                    && context.vs_script is None,
                Err(e) => args.fault() == Some(e),
            },
    {
        match args.validate() {
            Ok(_) => Ok(Av1anContext { frames: 0, vs_script: None, args }),
            Err(e) => Err(e),
        }
    }

    /// Settles whether the run takes up an interrupted one: it does where
    /// that was asked for and both the ledger and the saved queue of the
    /// interrupted run are there. Returns what was settled.
    pub fn initialize(&mut self, done_json_exists: bool, tasks_json_exists: bool) -> (resume: bool)
        ensures
            resume == (old(self).args.resume && done_json_exists && tasks_json_exists),
            *final(self) == (Av1anContext {
                args: EncodeArgs { resume, ..old(self).args },
                ..*old(self)
            }),
    {
        if self.args.resume && !(done_json_exists && tasks_json_exists) {
            self.args.resume = false;
        }
        self.args.resume
    }

    /// Takes the number of frames from the ledger of the interrupted run.
    /// Where the ledger does not know it, `input_frames` is taken and noted
    /// in the ledger.
    pub fn restore_frames(&mut self, ledger: &mut DoneLedger, input_frames: usize)
        ensures
            final(self).frames == if old(ledger).frames == 0 {
                input_frames
            } else {
                old(ledger).frames
            },
            final(ledger)@ == (LedgerModel { frames: final(self).frames as nat, ..old(ledger)@ }),
            final(ledger).done == old(ledger).done,
            *final(self) == (Av1anContext { frames: final(self).frames, ..*old(self) }),
    {
        self.frames = ledger.frames;
        if self.frames == 0 {
            self.frames = input_frames;
            ledger.set_frames(input_frames);
        }
    }

    /// Whether the scenes are read from a file instead of being worked out:
    /// they are where a scene file was named and exists, and whenever an
    /// interrupted run is taken up.
    pub fn uses_existing_cuts(&self, scene_file_exists: bool) -> (existing: bool)
        ensures
            existing == ((self.args.scenes is Some && scene_file_exists) || self.args.resume),
    {
        (self.args.scenes.is_some() && scene_file_exists) || self.args.resume
    }

    /// Whether a frame-server script has to be warmed up before the workers
    /// start: it has for a script input and for a script strategy, unless an
    /// interrupted run is taken up.
    pub fn needs_script_cache(&self) -> (needed: bool)
        ensures
            needed == ((self.args.input@ is VapourSynth || self.args.chunk_method.is_script_spec())
                && !self.args.resume),
    {
        (self.args.input.is_vapoursynth() || self.args.chunk_method.is_script())
            && !self.args.resume
    }

    /// Whether the audio track has to be encoded: it has for a container
    /// file, unless an interrupted run is taken up that did it already.
    pub fn encodes_audio(&self, ledger: &DoneLedger) -> (needed: bool)
        ensures
            needed == (self.args.input@ is Video && (!self.args.resume || !ledger.audio_done)),
    {
        self.args.input.is_video() && (!self.args.resume || !ledger.audio_done)
    }

    /// The number of workers to run: the number asked for, or `suggested`
    /// where none was asked for, but no more than there are chunks.
    pub fn effective_workers(&self, suggested: usize, queue_len: usize) -> (workers: usize)
        ensures
            workers == if (if self.args.workers == 0 { suggested } else { self.args.workers })
                <= queue_len {
                if self.args.workers == 0 { suggested } else { self.args.workers }
            } else {
                queue_len
            },
    {
        let wanted = if self.args.workers == 0 {
            suggested
        } else {
            self.args.workers
        };
        if wanted <= queue_len {
            wanted
        } else {
            queue_len
        }
    }

    /// Whether the working directory is removed at the end: it is when the
    /// result is there and the settings do not ask to keep it.
    pub fn removes_temp(&self, output_exists: bool) -> (removes: bool)
        ensures
            removes == (output_exists && !self.args.keep),
    {
        output_exists && !self.args.keep
    }

    /// Whether the frames of a chunk have to go through the pixel-format
    /// converter on their way to the encoder: they have when the converter
    /// was given arguments, or when the input differs from what is encoded,
    /// in format for a container file and in bit depth for a script.
    pub fn needs_converter(&self) -> (needed: bool)
        ensures
            needed == (self.args.ffmpeg_filter_args@.len() > 0 || match self.args.input_pix_format {
                InputPixelFormat::FFmpeg { format } => self.args.output_pix_format.format@
                    != format@,
                InputPixelFormat::VapourSynth { bit_depth } => self.args.output_pix_format.bit_depth
                    != bit_depth,
            }),
    {
        if self.args.ffmpeg_filter_args.len() > 0 {
            return true;
        }
        match &self.args.input_pix_format {
            InputPixelFormat::FFmpeg { format } => self.args.output_pix_format.format != *format,
            InputPixelFormat::VapourSynth { bit_depth } => self.args.output_pix_format.bit_depth
                != *bit_depth,
        }
    }
}

/// Scene lists that hold the same frames leave the same key-frames out.
proof fn lemma_stray_same(found: Seq<Scene>, cut: Seq<Scene>, keyframes: Seq<usize>)
    requires
        cut == found || exists|cap: int| cut == with_extra_splits(found, cap),
    ensures
        stray_keyframes(cut, keyframes) == stray_keyframes(found, keyframes),
    decreases keyframes.len(),
{
    reveal(Seq::filter);
    if keyframes.len() > 0 {
        lemma_stray_same(found, cut, keyframes.drop_last());
        if cut != found {
            let cap = choose|cap: int| cut == with_extra_splits(found, cap);
            lemma_extra_splits_same_frames(found, cap, keyframes.last() as int);
        }
    }
}

/// The scenes of a run, ready to be made into chunks.
#[derive(Debug)]
pub struct SplitPlan {
    /// The scenes, with forced key-frames and extra splits worked in.
    pub scenes: Vec<Scene>,
    /// The forced key-frames that fell into no scene and were left out.
    pub stray: Vec<usize>,
    /// Number of scenes before the extra splits.
    pub scenes_before: usize,
}

/// The scenes that are planned from the scenes found. Unless the scenes
/// were read from a file, scenes longer than the cap are cut into pieces
/// first; a cap of zero cuts nothing. Then the key-frames are forced.
pub open spec fn planned_scenes(
    found: Seq<Scene>,
    keyframes: Seq<usize>,
    cap: Option<usize>,
    existing: bool,
) -> Seq<Scene> {
    if splits_extra(cap, existing) {
        with_keyframes(with_extra_splits(found, cap.unwrap() as int), keyframes)
    } else {
        with_keyframes(found, keyframes)
    }
}

/// Whether scenes longer than the cap are cut into pieces.
pub open spec fn splits_extra(cap: Option<usize>, existing: bool) -> bool {
    !existing && match cap {
        Some(len) => len >= 1,
        None => false,
    }
}

/// What planning keeps and brings about: planned scenes cover the video that
/// the scenes found cover; every forced key-frame that lies in a scene
/// starts a scene; and where extra splits are made, no scene is longer than
/// the cap.
pub proof fn lemma_planned_scenes(
    found: Seq<Scene>,
    keyframes: Seq<usize>,
    cap: Option<usize>,
    existing: bool,
    frames: int,
)
    ensures
        scenes_cover(found, frames) ==> scenes_cover(
            planned_scenes(found, keyframes, cap, existing),
            frames,
        ),
        forall|k: int|
            0 <= k < keyframes.len() && some_scene_holds(found, (#[trigger] keyframes[k]) as int)
                ==> starts_scene(
                planned_scenes(found, keyframes, cap, existing),
                keyframes[k] as int,
            ),
        splits_extra(cap, existing) ==> forall|i: int|
            0 <= i < planned_scenes(found, keyframes, cap, existing).len() ==> (
            #[trigger] planned_scenes(found, keyframes, cap, existing)[i]).length() <= cap.unwrap(),
{
    let cut = if splits_extra(cap, existing) {
        with_extra_splits(found, cap.unwrap() as int)
    } else {
        found
    };
    let planned = planned_scenes(found, keyframes, cap, existing);
    assert(planned == with_keyframes(cut, keyframes));
    if scenes_cover(found, frames) {
        if splits_extra(cap, existing) {
            lemma_extra_splits_keep_chain(found, cap.unwrap() as int, 0, frames);
        }
        lemma_keyframes_keep_chain(cut, keyframes, 0, frames);
    }
    assert forall|k: int|
        0 <= k < keyframes.len() && some_scene_holds(
            found,
            (#[trigger] keyframes[k]) as int,
        ) implies starts_scene(planned, keyframes[k] as int) by {
        if splits_extra(cap, existing) {
            lemma_extra_splits_keep_frames(found, cap.unwrap() as int, keyframes[k] as int);
        }
        lemma_forced_keyframes_start_scenes(cut, keyframes, k);
    }
    if splits_extra(cap, existing) {
        lemma_extra_splits_cap(found, cap.unwrap() as int);
        lemma_keyframes_keep_cap(cut, keyframes, cap.unwrap() as int);
    }
}

impl Av1anContext {
    /// The scenes to start from: the detected scenes where scenes are
    /// detected, and else the whole video as one scene.
    pub fn calc_split_locations(
        &self,
        input_frames: usize,
        detected: Option<(Vec<Scene>, usize)>,
    ) -> (result: Result<(Vec<Scene>, usize), PlannerError>)
        ensures
            match self.args.split_method {
                SplitMethod::AvScenechange => match detected {
                    Some(found) => result == Ok::<(Vec<Scene>, usize), PlannerError>(found),
                    None => result == Err::<(Vec<Scene>, usize), PlannerError>(
                        PlannerError::MissingSceneDetection,
                    ),
                },
                SplitMethod::NoSplit => result is Ok && result.unwrap().1 == input_frames
                    && result.unwrap().0@ == seq![
                    Scene { start_frame: 0, end_frame: input_frames },
                ],
            },
    {
        match self.args.split_method {
            SplitMethod::AvScenechange => match detected {
                Some(found) => Ok(found),
                None => Err(PlannerError::MissingSceneDetection),
            },
            SplitMethod::NoSplit => {
                let mut scenes: Vec<Scene> = Vec::new();
                scenes.push(Scene { start_frame: 0, end_frame: input_frames });
                Ok((scenes, input_frames))
            },
        }
    }

    /// Plans the scenes of the run.
    ///
    /// `existing` holds the scenes and the number of frames that were read
    /// from the scene file, where [`Av1anContext::uses_existing_cuts`] says
    /// to read it. Otherwise the scenes to start from are those of
    /// [`Av1anContext::calc_split_locations`]. The number of frames becomes
    /// that of the run and of the ledger. Then the scenes are planned as
    /// [`planned_scenes`] says.
    pub fn split_routine(
        &mut self,
        ledger: &mut DoneLedger,
        existing: Option<(Vec<Scene>, usize)>,
        input_frames: usize,
        detected: Option<(Vec<Scene>, usize)>,
    ) -> (result: Result<SplitPlan, PlannerError>)
        ensures
            final(self).args == old(self).args,
            final(self).vs_script == old(self).vs_script,
            final(ledger).done == old(ledger).done,
            final(ledger).audio_done == old(ledger).audio_done,
            result is Err <==> existing is None && old(self).args.split_method is AvScenechange
                && detected is None,
            result matches Err(e) ==> e == PlannerError::MissingSceneDetection && final(self).frames
                == input_frames && final(ledger).frames == old(ledger).frames,
            result matches Ok(plan) ==> {
                let found = old(self).found_scenes(existing, input_frames, detected);
                let frames = old(self).found_frames(existing, input_frames, detected);
                &&& final(self).frames == frames
                &&& final(ledger).frames == frames
                &&& plan.scenes@ == planned_scenes(
                    found,
                    old(self).args.force_keyframes@,
                    old(self).args.extra_splits_len,
                    existing is Some,
                )
                &&& plan.stray@ == stray_keyframes(found, old(self).args.force_keyframes@)
                &&& plan.scenes_before == found.len()
                &&& scenes_cover(found, frames as int) ==> scenes_cover(plan.scenes@, frames as int)
                &&& forall|k: int|
                    0 <= k < old(self).args.force_keyframes@.len() && some_scene_holds(
                        found,
                        (#[trigger] old(self).args.force_keyframes@[k]) as int,
                    ) ==> starts_scene(plan.scenes@, old(self).args.force_keyframes@[k] as int)
                &&& splits_extra(old(self).args.extra_splits_len, existing is Some) ==> forall|
                    i: int,
                |
                    0 <= i < plan.scenes@.len() ==> (#[trigger] plan.scenes@[i]).length()
                        <= old(self).args.extra_splits_len.unwrap()
            },
    {
        let used_existing_cuts = existing.is_some();
        let (mut scenes, frames) = match existing {
            Some(read) => read,
            None => {
                self.frames = input_frames;
                match self.calc_split_locations(input_frames, detected) {
                    Ok(found) => found,
                    Err(e) => {
                        return Err(e);
                    },
                }
            },
        };
        let ghost found = scenes@;
        self.frames = frames;
        ledger.set_frames(frames);
        let scenes_before = scenes.len();
        proof {
            lemma_planned_scenes(
                found,
                self.args.force_keyframes@,
                self.args.extra_splits_len,
                used_existing_cuts,
                frames as int,
            );
        }
        if !used_existing_cuts {
            match self.args.extra_splits_len {
                Some(split_len) => {
                    if split_len >= 1 {
                        scenes = extra_splits(&scenes, split_len);
                    }
                },
                None => {},
            }
        }
        let ghost cut = scenes@;
        let stray = force_keyframes(&mut scenes, &self.args.force_keyframes);
        proof {
            if splits_extra(self.args.extra_splits_len, used_existing_cuts) {
                assert(cut == with_extra_splits(found, self.args.extra_splits_len.unwrap() as int));
            } else {
                assert(cut == found);
            }
            lemma_stray_same(found, cut, self.args.force_keyframes@);
            let planned = planned_scenes(
                found,
                self.args.force_keyframes@,
                self.args.extra_splits_len,
                used_existing_cuts,
            );
            assert(scenes@ == planned);
            assert(stray@ == stray_keyframes(found, self.args.force_keyframes@));
            assert(scenes_cover(found, frames as int) ==> scenes_cover(scenes@, frames as int));
            assert(forall|k: int|
                0 <= k < self.args.force_keyframes@.len() && some_scene_holds(
                    found,
                    (#[trigger] self.args.force_keyframes@[k]) as int,
                ) ==> starts_scene(scenes@, self.args.force_keyframes@[k] as int));
            assert(splits_extra(self.args.extra_splits_len, used_existing_cuts) ==> forall|i: int|
                0 <= i < scenes@.len() ==> (#[trigger] scenes@[i]).length()
                    <= self.args.extra_splits_len.unwrap());
        }
        Ok(SplitPlan { scenes, stray, scenes_before })
    }

    /// The scenes that planning starts from.
    pub open spec fn found_scenes(
        &self,
        existing: Option<(Vec<Scene>, usize)>,
        input_frames: usize,
        detected: Option<(Vec<Scene>, usize)>,
    ) -> Seq<Scene> {
        match existing {
            Some(read) => read.0@,
            None => match self.args.split_method {
                SplitMethod::AvScenechange => match detected {
                    Some(found) => found.0@,
                    None => Seq::empty(),
                },
                SplitMethod::NoSplit => seq![Scene { start_frame: 0, end_frame: input_frames }],
            },
        }
    }

    /// The number of frames that planning starts from.
    pub open spec fn found_frames(
        &self,
        existing: Option<(Vec<Scene>, usize)>,
        input_frames: usize,
        detected: Option<(Vec<Scene>, usize)>,
    ) -> usize {
        match existing {
            Some(read) => read.1,
            None => match self.args.split_method {
                SplitMethod::AvScenechange => match detected {
                    Some(found) => found.1,
                    None => 0,
                },
                SplitMethod::NoSplit => input_frames,
            },
        }
    }
}

/// A segment file that the muxer cut, and the number of frames in it.
#[derive(Debug, PartialEq, Eq)]
pub struct SegmentFile {
    pub path: String,
    pub frames: usize,
}

/// Index of the first scene without frames; the length of the list where
/// every scene has frames.
pub open spec fn first_empty(scenes: Seq<Scene>) -> int
    decreases scenes.len(),
{
    if scenes.len() == 0 {
        0
    } else if scenes[0].start_frame >= scenes[0].end_frame {
        0
    } else {
        1 + first_empty(scenes.drop_first())
    }
}

/// An index before which every scene has frames, and which is the end of the
/// list or the index of a scene without frames, is the first such index.
pub proof fn lemma_first_empty_is(scenes: Seq<Scene>, at: int)
    requires
        0 <= at <= scenes.len(),
        at < scenes.len() ==> scenes[at].start_frame >= scenes[at].end_frame,
        forall|j: int| 0 <= j < at ==> (#[trigger] scenes[j]).start_frame < scenes[j].end_frame,
    ensures
        first_empty(scenes) == at,
    decreases scenes.len(),
{
    if scenes.len() > 0 && at > 0 {
        let rest = scenes.drop_first();
        assert(scenes[0].start_frame < scenes[0].end_frame);
        assert forall|j: int| 0 <= j < at - 1 implies (#[trigger] rest[j]).start_frame
            < rest[j].end_frame by {
            assert(rest[j] == scenes[j + 1]);
        }
        if at < scenes.len() {
            assert(rest[at - 1] == scenes[at]);
        }
        lemma_first_empty_is(rest, at - 1);
    }
}

/// Whether the queue is the plan: chunk for chunk, in the plan's order.
pub open spec fn queue_is(queue: Seq<Chunk>, plan: Seq<ChunkModel>) -> bool {
    &&& queue.len() == plan.len()
    &&& forall|i: int| 0 <= i < queue.len() ==> (#[trigger] queue[i])@ == plan[i]
}

/// Whether the queue holds the chunks of the plan in some order: every chunk
/// of the queue is the planned chunk of its index, and every index of the
/// plan is in the queue.
pub open spec fn queue_has(queue: Seq<Chunk>, plan: Seq<ChunkModel>) -> bool {
    &&& queue.len() == plan.len()
    &&& forall|j: int|
        0 <= j < queue.len() ==> (#[trigger] queue[j]).index < plan.len() && queue[j]@
            == plan[queue[j].index as int]
    &&& forall|k: int| 0 <= k < plan.len() ==> #[trigger] has_index(queue, k)
}

/// Whether some chunk of the queue has the frames of this scene.
pub open spec fn has_range(queue: Seq<Chunk>, scene: Scene) -> bool {
    exists|j: int| 0 <= j < queue.len() && (#[trigger] queue[j]).range() == scene
}

/// Whether some chunk of the queue has this index.
pub open spec fn has_index(queue: Seq<Chunk>, index: int) -> bool {
    exists|j: int| 0 <= j < queue.len() && (#[trigger] queue[j]).index == index
}

/// Whether every planned chunk has its place in the plan as its index.
pub open spec fn plan_indexed(plan: Seq<ChunkModel>) -> bool {
    forall|i: int| 0 <= i < plan.len() ==> (#[trigger] plan[i]).index == i
}

/// A queue that is a plan in the plan's order has no chunk twice, and a queue
/// that holds the same chunks holds the chunks of the plan.
pub proof fn lemma_reordered_queue_has(plain: Seq<Chunk>, queue: Seq<Chunk>, plan: Seq<ChunkModel>)
    requires
        queue_is(plain, plan),
        plan_indexed(plan),
        queue.to_multiset() == plain.to_multiset(),
    ensures
        plain.no_duplicates(),
        queue_has(queue, plan),
{
    broadcast use vstd::seq_lib::group_to_multiset_ensures;

    assert forall|i: int, j: int|
        0 <= i < plain.len() && 0 <= j < plain.len() && i != j implies plain[i] != plain[j] by {
        assert(plain[i]@.index == i);
        assert(plain[j]@.index == j);
    }
    vstd::seq_lib::to_multiset_len(plain);
    vstd::seq_lib::to_multiset_len(queue);
    assert forall|j: int| 0 <= j < queue.len() implies (#[trigger] queue[j]).index < plan.len()
        && queue[j]@ == plan[queue[j].index as int] by {
        assert(queue.contains(queue[j]));
        assert(plain.to_multiset().count(queue[j]) > 0);
        assert(plain.contains(queue[j]));
        let i = choose|i: int| 0 <= i < plain.len() && plain[i] == queue[j];
        assert(plain[i]@ == plan[i]);
    }
    assert forall|k: int| 0 <= k < plan.len() implies #[trigger] has_index(queue, k) by {
        assert(plain.contains(plain[k]));
        assert(queue.to_multiset().count(plain[k]) > 0);
        assert(queue.contains(plain[k]));
        let j = choose|j: int| 0 <= j < queue.len() && queue[j] == plain[k];
        assert(plain[k]@ == plan[k]);
        assert(queue[j].index == k);
    }
}

impl Av1anContext {
    /// The chunk that the run makes of a range of frames, a source command
    /// and an input.
    pub open spec fn chunk_of(
        &self,
        index: nat,
        input: InputModel,
        source_cmd: Seq<Seq<char>>,
        start: nat,
        end: nat,
    ) -> ChunkModel {
        ChunkModel {
            temp: self.args.temp@,
            index,
            input,
            source_cmd,
            output_ext: output_extension_spec(self.args.encoder),
            start_frame: start,
            end_frame: end,
            frame_rate: self.args.frame_rate,
            video_params: self.args.video_params.deep_view(),
            passes: self.args.passes,
            encoder: self.args.encoder,
            ignore_frame_mismatch: self.args.ignore_frame_mismatch,
            tq_cq: None,
        }
    }

    /// The chunk that selects a range of frames out of a container file.
    pub open spec fn select_chunk(&self, index: nat, source: Seq<char>, start: nat, end: nat) -> ChunkModel {
        self.chunk_of(
            index,
            InputModel::Video { path: source },
            select_command(source, start, end, self.args.output_pix_format.format@),
            start,
            end,
        )
    }

    /// The chunk that asks a frame-server script for a scene.
    pub open spec fn script_chunk(&self, index: nat, script: Seq<char>, scene: Scene) -> ChunkModel {
        self.chunk_of(
            index,
            InputModel::VapourSynth { path: script, vspipe_args: self.args.input@.script_args() },
            script_command(script, scene.start_frame as nat, scene.end_frame as nat),
            scene.start_frame as nat,
            scene.end_frame as nat,
        )
    }

    /// The chunk that encodes a whole segment file.
    pub open spec fn segment_chunk(&self, index: nat, file: Seq<char>, frames: nat) -> ChunkModel {
        self.chunk_of(
            index,
            InputModel::Video { path: file },
            segment_command(file, self.args.output_pix_format.format@),
            0,
            frames,
        )
    }

    /// Makes [`Av1anContext::chunk_of`].
    fn make_chunk(
        &self,
        index: usize,
        input: Input,
        source_cmd: Vec<String>,
        start_frame: usize,
        end_frame: usize,
    ) -> (chunk: Chunk)
        ensures
            chunk@ == self.chunk_of(
                index as nat,
                input@,
                source_cmd.deep_view(),
                start_frame as nat,
                end_frame as nat,
            ),
            chunk.index == index,
            chunk.start_frame == start_frame,
            chunk.end_frame == end_frame,
            chunk.passes == self.args.passes,
    {
        Chunk {
            temp: self.args.temp.clone(),
            index,
            input,
            source_cmd,
            output_ext: String::from_str(self.args.encoder.output_extension()),
            start_frame,
            end_frame,
            frame_rate: self.args.frame_rate,
            video_params: clone_texts(&self.args.video_params),
            passes: self.args.passes,
            encoder: self.args.encoder,
            ignore_frame_mismatch: self.args.ignore_frame_mismatch,
            tq_cq: None,
        }
    }

    /// Makes the chunk that selects the frames from `start_frame` up to, not
    /// including, `end_frame` out of a container file.
    pub fn create_select_task(
        &self,
        index: usize,
        src_path: &String,
        start_frame: usize,
        end_frame: usize,
    ) -> (chunk: Chunk)
        requires
            start_frame < end_frame,
        ensures
            chunk@ == self.select_chunk(index as nat, src_path@, start_frame as nat, end_frame as nat),
            chunk.index == index,
            chunk.range() == (Scene { start_frame, end_frame }),
            chunk.passes == self.args.passes,
    {
        let source_cmd = compose_select_command(
            src_path.as_str(),
            start_frame,
            end_frame,
            self.args.output_pix_format.format.as_str(),
        );
        self.make_chunk(
            index,
            Input::Video { path: src_path.clone() },
            source_cmd,
            start_frame,
            end_frame,
        )
    }

    /// Makes the chunk that asks a frame-server script for a scene.
    pub fn create_vs_task(&self, index: usize, vs_script: &String, scene: &Scene) -> (chunk: Chunk)
        requires
            scene.start_frame < scene.end_frame,
        ensures
            chunk@ == self.script_chunk(index as nat, vs_script@, *scene),
            chunk.index == index,
            chunk.range() == *scene,
            chunk.passes == self.args.passes,
    {
        let source_cmd = compose_script_command(
            vs_script.as_str(),
            scene.start_frame,
            scene.end_frame,
        );
        self.make_chunk(
            index,
            Input::VapourSynth {
                path: vs_script.clone(),
                vspipe_args: self.args.input.script_args(),
            },
            source_cmd,
            scene.start_frame,
            scene.end_frame,
        )
    }

    /// Makes the chunk that encodes a whole segment file.
    pub fn create_task_from_segment(&self, index: usize, file: &SegmentFile) -> (chunk: Chunk)
        ensures
            chunk@ == self.segment_chunk(index as nat, file.path@, file.frames as nat),
            chunk.index == index,
            chunk.range() == (Scene { start_frame: 0, end_frame: file.frames }),
            chunk.passes == self.args.passes,
    {
        let source_cmd = compose_segment_command(
            file.path.as_str(),
            self.args.output_pix_format.format.as_str(),
        );
        self.make_chunk(
            index,
            Input::Video { path: file.path.clone() },
            source_cmd,
            0,
            file.frames,
        )
    }

    /// The queue of the script strategy: one chunk per scene, in the order of
    /// the scenes. A scene without frames cannot be planned.
    pub open spec fn script_plan(&self, script: Seq<char>, scenes: Seq<Scene>) -> Result<
        Seq<ChunkModel>,
        PlannerError,
    > {
        if first_empty(scenes) < scenes.len() {
            Err(PlannerError::EmptyScene { strategy: Strategy::Script, index: first_empty(scenes) as usize })
        } else {
            Ok(Seq::new(scenes.len(), |i: int| self.script_chunk(i as nat, script, scenes[i])))
        }
    }

    /// The queue of the select strategy: one chunk per scene, in the order of
    /// the scenes. The input has to be a container file, and a scene without
    /// frames cannot be planned.
    pub open spec fn select_plan(&self, scenes: Seq<Scene>) -> Result<Seq<ChunkModel>, PlannerError> {
        if !(self.args.input@ is Video) {
            Err(PlannerError::NotAVideo { strategy: Strategy::Select })
        } else if first_empty(scenes) < scenes.len() {
            Err(PlannerError::EmptyScene { strategy: Strategy::Select, index: first_empty(scenes) as usize })
        } else {
            Ok(
                Seq::new(
                    scenes.len(),
                    |i: int|
                        self.select_chunk(
                            i as nat,
                            self.args.input@.path(),
                            scenes[i].start_frame as nat,
                            scenes[i].end_frame as nat,
                        ),
                ),
            )
        }
    }

    /// The queue of the segment strategy: one chunk per segment file, in the
    /// order of the files. There has to be a file.
    pub open spec fn segment_plan(&self, segments: Seq<SegmentFile>) -> Result<
        Seq<ChunkModel>,
        PlannerError,
    > {
        if !(self.args.input@ is Video) {
            Err(PlannerError::NotAVideo { strategy: Strategy::Segment })
        } else if segments.len() == 0 {
            Err(PlannerError::NoSegments)
        } else {
            Ok(
                Seq::new(
                    segments.len(),
                    |i: int|
                        self.segment_chunk(i as nat, segments[i].path@, segments[i].frames as nat),
                ),
            )
        }
    }

    /// Makes the queue of the script strategy.
    pub fn create_video_queue_vs(&self, scenes: &Vec<Scene>, vs_script: &String) -> (result: Result<
        Vec<Chunk>,
        PlannerError,
    >)
        ensures
            match self.script_plan(vs_script@, scenes@) {
                Ok(plan) => result is Ok && queue_is(result.unwrap()@, plan) && plan_indexed(plan)
                    && follows_scenes(result.unwrap()@, scenes@) && passes_set(
                    result.unwrap()@,
                    self.args.passes,
                ),
                Err(e) => result == Err::<Vec<Chunk>, PlannerError>(e),
            },
    {
        let mut queue: Vec<Chunk> = Vec::new();
        let mut i: usize = 0;
        while i < scenes.len()
            invariant
                i <= scenes.len(),
                queue@.len() == i,
                forall|j: int| 0 <= j < i ==> (#[trigger] scenes@[j]).start_frame < scenes@[j].end_frame,
                forall|j: int|
                    0 <= j < i ==> (#[trigger] queue@[j])@ == self.script_chunk(
                        j as nat,
                        vs_script@,
                        scenes@[j],
                    ) && queue@[j].range() == scenes@[j] && queue@[j].passes == self.args.passes,
            decreases scenes.len() - i,
        {
            if scenes[i].start_frame >= scenes[i].end_frame {
                proof {
                    lemma_first_empty_is(scenes@, i as int);
                }
                return Err(PlannerError::EmptyScene { strategy: Strategy::Script, index: i });
            }
            let chunk = self.create_vs_task(i, vs_script, &scenes[i]);
            queue.push(chunk);
            i += 1;
        }
        proof {
            lemma_first_empty_is(scenes@, i as int);
        }
        Ok(queue)
    }

    /// Makes the queue of the select strategy.
    pub fn create_video_queue_select(&self, scenes: &Vec<Scene>) -> (result: Result<
        Vec<Chunk>,
        PlannerError,
    >)
        ensures
            match self.select_plan(scenes@) {
                Ok(plan) => result is Ok && queue_is(result.unwrap()@, plan) && plan_indexed(plan)
                    && follows_scenes(result.unwrap()@, scenes@) && passes_set(
                    result.unwrap()@,
                    self.args.passes,
                ),
                Err(e) => result == Err::<Vec<Chunk>, PlannerError>(e),
            },
    {
        if !self.args.input.is_video() {
            return Err(PlannerError::NotAVideo { strategy: Strategy::Select });
        }
        let source = self.args.input.path();
        let mut queue: Vec<Chunk> = Vec::new();
        let mut i: usize = 0;
        while i < scenes.len()
            invariant
                i <= scenes.len(),
                queue@.len() == i,
                source@ == self.args.input@.path(),
                self.args.input@ is Video,
                forall|j: int| 0 <= j < i ==> (#[trigger] scenes@[j]).start_frame < scenes@[j].end_frame,
                forall|j: int|
                    0 <= j < i ==> (#[trigger] queue@[j])@ == self.select_chunk(
                        j as nat,
                        self.args.input@.path(),
                        scenes@[j].start_frame as nat,
                        scenes@[j].end_frame as nat,
                    ) && queue@[j].range() == scenes@[j] && queue@[j].passes == self.args.passes,
            decreases scenes.len() - i,
        {
            if scenes[i].start_frame >= scenes[i].end_frame {
                proof {
                    lemma_first_empty_is(scenes@, i as int);
                }
                return Err(PlannerError::EmptyScene { strategy: Strategy::Select, index: i });
            }
            let chunk = self.create_select_task(
                i,
                source,
                scenes[i].start_frame,
                scenes[i].end_frame,
            );
            queue.push(chunk);
            i += 1;
        }
        proof {
            lemma_first_empty_is(scenes@, i as int);
        }
        Ok(queue)
    }

    /// Makes the queue of the segment strategy from the files that the muxer
    /// cut at the scene boundaries.
    pub fn create_video_queue_segment(&self, segments: &Vec<SegmentFile>) -> (result: Result<
        Vec<Chunk>,
        PlannerError,
    >)
        ensures
            match self.segment_plan(segments@) {
                Ok(plan) => result is Ok && queue_is(result.unwrap()@, plan) && plan_indexed(plan)
                    && passes_set(result.unwrap()@, self.args.passes),
                Err(e) => result == Err::<Vec<Chunk>, PlannerError>(e),
            },
    {
        if !self.args.input.is_video() {
            return Err(PlannerError::NotAVideo { strategy: Strategy::Segment });
        }
        if segments.len() == 0 {
            return Err(PlannerError::NoSegments);
        }
        let mut queue: Vec<Chunk> = Vec::new();
        let mut i: usize = 0;
        while i < segments.len()
            invariant
                i <= segments.len(),
                queue@.len() == i,
                forall|j: int|
                    0 <= j < i ==> (#[trigger] queue@[j])@ == self.segment_chunk(
                        j as nat,
                        segments@[j].path@,
                        segments@[j].frames as nat,
                    ) && queue@[j].passes == self.args.passes,
            decreases segments.len() - i,
        {
            let chunk = self.create_task_from_segment(i, &segments[i]);
            queue.push(chunk);
            i += 1;
        }
        Ok(queue)
    }
}

/// Whether every chunk of the queue has this number of passes.
pub open spec fn passes_set(queue: Seq<Chunk>, passes: u8) -> bool {
    forall|i: int| 0 <= i < queue.len() ==> (#[trigger] queue[i]).passes == passes
}

/// A scene that the hybrid strategy found in a segment: the segment's file,
/// and the scene's frames counted from the start of the segment.
pub struct Pick {
    pub file: int,
    pub start: int,
    pub end: int,
}

/// Whether a scene has frames and lies within a window of frames.
pub open spec fn fits(scene: Scene, from: int, to: int) -> bool {
    scene.start_frame >= from && scene.end_frame <= to && scene.start_frame < scene.end_frame
}

/// The frame at which window `k` ends: the next split point, or the end of
/// the video for the last window.
pub open spec fn window_end(points: Seq<usize>, frames: int, k: int) -> int {
    if k + 1 < points.len() {
        points[k + 1] as int
    } else {
        frames
    }
}

/// The scenes that fit into one window, in the order of the scenes.
pub open spec fn window_picks(scenes: Seq<Scene>, file: int, from: int, to: int) -> Seq<Pick>
    decreases scenes.len(),
{
    if scenes.len() == 0 {
        Seq::empty()
    } else if fits(scenes.last(), from, to) {
        window_picks(scenes.drop_last(), file, from, to).push(
            Pick {
                file,
                start: scenes.last().start_frame - from,
                end: scenes.last().end_frame - from,
            },
        )
    } else {
        window_picks(scenes.drop_last(), file, from, to)
    }
}

/// The scenes that fit into the first `windows` windows, window by window.
/// Window `k` starts at split point `k` and belongs to segment file `k`.
pub open spec fn hybrid_picks(scenes: Seq<Scene>, points: Seq<usize>, frames: int, windows: int) -> Seq<
    Pick,
>
    decreases windows,
{
    if windows <= 0 {
        Seq::empty()
    } else {
        hybrid_picks(scenes, points, frames, windows - 1) + window_picks(
            scenes,
            windows - 1,
            points[windows - 1] as int,
            window_end(points, frames, windows - 1),
        )
    }
}

/// The strategies of a run, as far as they differ in what they need.
impl Av1anContext {
    /// The chunks that the hybrid strategy makes of its picks.
    pub open spec fn picks_plan(&self, segments: Seq<SegmentFile>, picks: Seq<Pick>) -> Seq<ChunkModel> {
        Seq::new(
            picks.len(),
            |i: int|
                self.select_chunk(
                    i as nat,
                    segments[picks[i].file].path@,
                    picks[i].start as nat,
                    picks[i].end as nat,
                ),
        )
    }

    /// The queue of the hybrid strategy. The video is cut at the key-frames
    /// at which a scene starts; every segment file gets one chunk per scene
    /// that lies in its window, and the chunk selects the scene's frames out
    /// of the segment. The input has to be a container file, and some
    /// key-frame has to start a scene.
    pub open spec fn hybrid_plan(
        &self,
        scenes: Seq<Scene>,
        keyframes: Seq<usize>,
        segments: Seq<SegmentFile>,
    ) -> Result<Seq<ChunkModel>, PlannerError> {
        let points = split_candidates(keyframes, scenes);
        if !(self.args.input@ is Video) {
            Err(PlannerError::NotAVideo { strategy: Strategy::Hybrid })
        } else if points.len() == 0 {
            Err(PlannerError::NoSplitPoint)
        } else {
            Ok(
                self.picks_plan(
                    segments,
                    hybrid_picks(
                        scenes,
                        points,
                        self.frames as int,
                        if segments.len() <= points.len() {
                            segments.len() as int
                        } else {
                            points.len() as int
                        },
                    ),
                ),
            )
        }
    }

    /// Whether the run plans one chunk per scene: it does for a script input
    /// and for the script and select strategies.
    pub open spec fn plans_per_scene(&self) -> bool {
        self.args.input@ is VapourSynth || self.args.chunk_method.is_script_spec()
            || self.args.chunk_method is Select
    }

    /// The queue of the run before it is put into order: that of the
    /// strategy that the settings name. A script input is always planned by
    /// the script strategy.
    pub open spec fn plan(
        &self,
        scenes: Seq<Scene>,
        keyframes: Seq<usize>,
        segments: Seq<SegmentFile>,
    ) -> Result<Seq<ChunkModel>, PlannerError> {
        match self.args.input@ {
            InputModel::VapourSynth { path, .. } => self.script_plan(path, scenes),
            InputModel::Video { .. } => match self.args.chunk_method {
                ChunkMethod::Hybrid => self.hybrid_plan(scenes, keyframes, segments),
                ChunkMethod::Select => self.select_plan(scenes),
                ChunkMethod::Segment => self.segment_plan(segments),
                _ => match self.vs_script {
                    Some(script) => self.script_plan(script@, scenes),
                    None => Err(PlannerError::MissingScript),
                },
            },
        }
    }

    /// The places at which the muxer has to cut the video before the queue
    /// can be planned: none for the strategies that do not cut.
    pub open spec fn cut_points(&self, scenes: Seq<Scene>, keyframes: Seq<usize>) -> Result<
        Option<Seq<usize>>,
        PlannerError,
    > {
        if !(self.args.input@ is Video) {
            Ok(None)
        } else if self.args.chunk_method is Segment {
            Ok(Some(later_starts(scenes)))
        } else if self.args.chunk_method is Hybrid {
            if split_candidates(keyframes, scenes).len() == 0 {
                Err(PlannerError::NoSplitPoint)
            } else {
                Ok(Some(split_candidates(keyframes, scenes).skip(1)))
            }
        } else {
            Ok(None)
        }
    }

    /// Lists the places at which the muxer has to cut the video before the
    /// queue can be planned. The segment strategy cuts where the scenes after
    /// the first one start. The hybrid strategy cuts at the key-frames at
    /// which a scene starts, but for the first of them.
    pub fn segment_points(&self, scenes: &Vec<Scene>, keyframes: &Vec<usize>) -> (result: Result<
        Option<Vec<usize>>,
        PlannerError,
    >)
        ensures
            match self.cut_points(scenes@, keyframes@) {
                Ok(Some(points)) => result is Ok && result.unwrap() is Some
                    && result.unwrap().unwrap()@ == points,
                Ok(None) => result is Ok && result.unwrap() is None,
                Err(e) => result == Err::<Option<Vec<usize>>, PlannerError>(e),
            },
    {
        if !self.args.input.is_video() {
            return Ok(None);
        }
        match self.args.chunk_method {
            ChunkMethod::Segment => Ok(Some(starts_after_first(scenes))),
            ChunkMethod::Hybrid => {
                let mut points = scene_keyframes(keyframes, scenes);
                if points.len() == 0 {
                    return Err(PlannerError::NoSplitPoint);
                }
                let ghost all = points@;
                points.remove(0);
                assert(points@ =~= all.skip(1));
                Ok(Some(points))
            },
            _ => Ok(None),
        }
    }

    /// Makes the queue of the hybrid strategy from the key-frames of the
    /// video and the files that the muxer cut.
    pub fn create_video_queue_hybrid(
        &self,
        scenes: &Vec<Scene>,
        keyframes: &Vec<usize>,
        segments: &Vec<SegmentFile>,
    ) -> (result: Result<Vec<Chunk>, PlannerError>)
        ensures
            match self.hybrid_plan(scenes@, keyframes@, segments@) {
                Ok(plan) => result is Ok && queue_is(result.unwrap()@, plan) && plan_indexed(plan)
                    && passes_set(result.unwrap()@, self.args.passes),
                Err(e) => result == Err::<Vec<Chunk>, PlannerError>(e),
            },
    {
        if !self.args.input.is_video() {
            return Err(PlannerError::NotAVideo { strategy: Strategy::Hybrid });
        }
        let points = scene_keyframes(keyframes, scenes);
        if points.len() == 0 {
            return Err(PlannerError::NoSplitPoint);
        }
        let windows = if segments.len() <= points.len() {
            segments.len()
        } else {
            points.len()
        };
        let mut queue: Vec<Chunk> = Vec::new();
        let mut k: usize = 0;
        while k < windows
            invariant
                k <= windows,
                windows <= segments.len(),
                windows <= points.len(),
                queue_is(
                    queue@,
                    self.picks_plan(
                        segments@,
                        hybrid_picks(scenes@, points@, self.frames as int, k as int),
                    ),
                ),
                passes_set(queue@, self.args.passes),
            decreases windows - k,
        {
            let from = points[k];
            let to = if k + 1 < points.len() {
                points[k + 1]
            } else {
                self.frames
            };
            let ghost earlier = hybrid_picks(scenes@, points@, self.frames as int, k as int);
            let mut j: usize = 0;
            proof {
                assert(scenes@.take(0) =~= Seq::<Scene>::empty());
                assert(earlier + window_picks(scenes@.take(0), k as int, from as int, to as int)
                    =~= earlier);
            }
            while j < scenes.len()
                invariant
                    j <= scenes.len(),
                    k < windows,
                    windows <= segments.len(),
                    queue_is(
                        queue@,
                        self.picks_plan(
                            segments@,
                            earlier + window_picks(
                                scenes@.take(j as int),
                                k as int,
                                from as int,
                                to as int,
                            ),
                        ),
                    ),
                    passes_set(queue@, self.args.passes),
                decreases scenes.len() - j,
            {
                let scene = scenes[j];
                let ghost before = earlier + window_picks(
                    scenes@.take(j as int),
                    k as int,
                    from as int,
                    to as int,
                );
                let ghost queue_before = queue@;
                proof {
                    assert(scenes@.take(j + 1).drop_last() =~= scenes@.take(j as int));
                    assert(scenes@.take(j + 1).last() == scene);
                }
                if scene.start_frame >= from && scene.end_frame <= to && scene.start_frame
                    < scene.end_frame {
                    let chunk = self.create_select_task(
                        queue.len(),
                        &segments[k].path,
                        scene.start_frame - from,
                        scene.end_frame - from,
                    );
                    queue.push(chunk);
                    proof {
                        let pick = Pick {
                            file: k as int,
                            start: scene.start_frame - from,
                            end: scene.end_frame - from,
                        };
                        let after = earlier + window_picks(
                            scenes@.take(j + 1),
                            k as int,
                            from as int,
                            to as int,
                        );
                        assert(after =~= before.push(pick));
                        let plan = self.picks_plan(segments@, after);
                        assert forall|i: int| 0 <= i < queue@.len() implies (#[trigger] queue@[i])@
                            == plan[i] by {
                            if i < queue_before.len() {
                                assert(queue@[i] == queue_before[i]);
                                assert(after[i] == before[i]);
                            }
                        }
                    }
                }
                j += 1;
            }
            proof {
                assert(scenes@.take(scenes@.len() as int) =~= scenes@);
            }
            k += 1;
        }
        Ok(queue)
    }

    /// What holds of the queue that [`Av1anContext::create_encoding_queue`]
    /// makes of scenes, key-frames and segment files.
    ///
    /// Where the strategy cannot plan, its reason comes back. Otherwise the
    /// queue holds the chunks of [`Av1anContext::plan`], in the order that
    /// the settings name: the longest or the shortest chunks first, chunks of
    /// one length by index; or by index; or shuffled. Where the run plans
    /// one chunk per scene and the scenes cover the video, the chunks split
    /// the frames of the video among themselves.
    pub open spec fn queue_planned(
        &self,
        scenes: Seq<Scene>,
        keyframes: Seq<usize>,
        segments: Seq<SegmentFile>,
        result: Result<Vec<Chunk>, PlannerError>,
    ) -> bool {
        match self.plan(scenes, keyframes, segments) {
            Ok(plan) => {
                &&& result is Ok
                &&& queue_has(result.unwrap()@, plan)
                &&& passes_set(result.unwrap()@, self.args.passes)
                &&& self.args.chunk_order is LongestFirst || self.args.chunk_order is ShortestFirst
                    ==> is_ordered(result.unwrap()@, self.args.chunk_order)
                &&& self.args.chunk_order is Sequential ==> queue_is(result.unwrap()@, plan)
                &&& self.plans_per_scene() && scenes_cover(scenes, self.frames as int)
                    ==> queue_partitions(result.unwrap()@, self.frames as int)
                &&& self.plans_per_scene() ==> forall|i: int|
                    0 <= i < scenes.len() ==> has_range(result.unwrap()@, #[trigger] scenes[i])
                &&& self.plans_per_scene() ==> forall|j: int|
                    0 <= j < result.unwrap()@.len() ==> scenes.contains(
                        (#[trigger] result.unwrap()@[j]).range(),
                    )
            },
            Err(e) => result == Err::<Vec<Chunk>, PlannerError>(e),
        }
    }

    /// Where the run plans one chunk per scene, every frame that starts a
    /// scene starts a chunk, and no chunk is longer than the longest scene:
    /// what forced key-frames and extra splits did to the scenes holds of the
    /// chunks.
    pub proof fn lemma_chunks_are_scenes(
        &self,
        scenes: Seq<Scene>,
        keyframes: Seq<usize>,
        segments: Seq<SegmentFile>,
        queue: Vec<Chunk>,
        frame: int,
        cap: int,
    )
        requires
            self.plans_per_scene(),
            self.queue_planned(scenes, keyframes, segments, Ok(queue)),
        ensures
            starts_scene(scenes, frame) ==> exists|j: int|
                0 <= j < queue@.len() && (#[trigger] queue@[j]).start_frame == frame,
            (forall|i: int| 0 <= i < scenes.len() ==> (#[trigger] scenes[i]).length() <= cap)
                ==> forall|j: int|
                0 <= j < queue@.len() ==> (#[trigger] queue@[j]).end_frame - queue@[j].start_frame
                    <= cap,
    {
        if self.plan(scenes, keyframes, segments) is Ok {
            if starts_scene(scenes, frame) {
                let i = choose|i: int|
                    0 <= i < scenes.len() && (#[trigger] scenes[i]).start_frame == frame;
                assert(has_range(queue@, scenes[i]));
                let j = choose|j: int|
                    0 <= j < queue@.len() && (#[trigger] queue@[j]).range() == scenes[i];
                assert(queue@[j].start_frame == frame);
            }
            if forall|i: int| 0 <= i < scenes.len() ==> (#[trigger] scenes[i]).length() <= cap {
                assert forall|j: int| 0 <= j < queue@.len() implies (
                #[trigger] queue@[j]).end_frame - queue@[j].start_frame <= cap by {
                    assert(scenes.contains(queue@[j].range()));
                    let i = choose|i: int|
                        0 <= i < scenes.len() && scenes[i] == queue@[j].range();
                    assert(scenes[i].length() <= cap);
                }
            }
        }
    }

    /// Plans the queue of the run and puts it into order. See
    /// [`Av1anContext::queue_planned`].
    pub fn create_encoding_queue(
        &self,
        scenes: &Vec<Scene>,
        keyframes: &Vec<usize>,
        segments: &Vec<SegmentFile>,
    ) -> (result: Result<Vec<Chunk>, PlannerError>)
        ensures
            self.queue_planned(scenes@, keyframes@, segments@, result),
    {
        let made = match &self.args.input {
            Input::VapourSynth { path, .. } => self.create_video_queue_vs(scenes, path),
            Input::Video { .. } => match self.args.chunk_method {
                ChunkMethod::Hybrid => self.create_video_queue_hybrid(scenes, keyframes, segments),
                ChunkMethod::Select => self.create_video_queue_select(scenes),
                ChunkMethod::Segment => self.create_video_queue_segment(segments),
                _ => match &self.vs_script {
                    Some(script) => self.create_video_queue_vs(scenes, script),
                    None => Err(PlannerError::MissingScript),
                },
            },
        };
        let plain = match made {
            Ok(plain) => plain,
            Err(e) => {
                return Err(e);
            },
        };
        let ghost plan = self.plan(scenes@, keyframes@, segments@).unwrap();
        let ghost before = plain@;
        let queue = order_queue(plain, self.args.chunk_order);
        proof {
            lemma_reordered_queue_has(before, queue@, plan);
            assert forall|i: int| 0 <= i < queue@.len() implies (#[trigger] queue@[i]).passes
                == self.args.passes by {
                assert(queue@[i]@ == plan[queue@[i].index as int]);
                assert(before[queue@[i].index as int]@ == plan[queue@[i].index as int]);
            }
            if self.plans_per_scene() && scenes_cover(scenes@, self.frames as int) {
                lemma_scene_queue_partitions(before, scenes@, self.frames as int);
                lemma_reordered_queue_partitions(before, queue@, self.frames as int);
            }
            if self.plans_per_scene() {
                assert(follows_scenes(before, scenes@));
                assert forall|i: int| 0 <= i < scenes@.len() implies has_range(
                    queue@,
                    #[trigger] scenes@[i],
                ) by {
                    assert(has_index(queue@, i));
                    let j = choose|j: int|
                        0 <= j < queue@.len() && (#[trigger] queue@[j]).index == i;
                    assert(queue@[j]@ == plan[i]);
                    assert(before[i]@ == plan[i]);
                    assert(before[i].range() == scenes@[i]);
                    assert(queue@[j].range() == scenes@[i]);
                }
                assert forall|j: int| 0 <= j < queue@.len() implies scenes@.contains(
                    (#[trigger] queue@[j]).range(),
                ) by {
                    let i = queue@[j].index as int;
                    assert(queue@[j]@ == plan[i]);
                    assert(before[i]@ == plan[i]);
                    assert(before[i].range() == scenes@[i]);
                    assert(queue@[j].range() == scenes@[i]);
                }
            }
        }
        Ok(queue)
    }

    /// The queue that the run starts with, and the number of chunks of the
    /// whole video.
    ///
    /// A run that takes up an interrupted one starts with the chunks of the
    /// saved queue that the ledger does not hold, in their saved order; the
    /// saved queue has to be given. Any other run plans its queue as
    /// [`Av1anContext::create_encoding_queue`] does.
    pub fn load_or_gen_task_queue(
        &self,
        splits: &Vec<Scene>,
        ledger: &DoneLedger,
        saved: Option<Vec<Chunk>>,
        keyframes: &Vec<usize>,
        segments: &Vec<SegmentFile>,
    ) -> (result: Result<(Vec<Chunk>, usize), PlannerError>)
        ensures
            self.args.resume ==> match saved {
                Some(queue) => result is Ok && result.unwrap().0@ == unfinished(
                    queue@,
                    ledger@.done,
                ) && result.unwrap().1 == queue@.len(),
                None => result == Err::<(Vec<Chunk>, usize), PlannerError>(
                    PlannerError::MissingQueue,
                ),
            },
            !self.args.resume ==> match result {
                Ok(made) => self.queue_planned(
                    splits@,
                    keyframes@,
                    segments@,
                    Ok::<Vec<Chunk>, PlannerError>(made.0),
                ) && made.1 == made.0@.len(),
                Err(e) => self.queue_planned(
                    splits@,
                    keyframes@,
                    segments@,
                    Err::<Vec<Chunk>, PlannerError>(e),
                ),
            },
    {
        if self.args.resume {
            match saved {
                Some(queue) => {
                    let total = queue.len();
                    let left = retain_unfinished(queue, ledger);
                    Ok((left, total))
                },
                None => Err(PlannerError::MissingQueue),
            }
        } else {
            match self.create_encoding_queue(splits, keyframes, segments) {
                Ok(queue) => {
                    let total = queue.len();
                    Ok((queue, total))
                },
                Err(e) => Err(e),
            }
        }
    }
}

/// Index of the scene that starts at a frame.
pub open spec fn scene_at(scenes: Seq<Scene>, frame: int) -> int {
    choose|i: int| 0 <= i < scenes.len() && (#[trigger] scenes[i]).start_frame == frame
}

/// What the hybrid strategy asks of its split points to pick every scene:
/// they rise, start with the first frame, and every one of them starts a
/// scene.
pub open spec fn points_fit(scenes: Seq<Scene>, points: Seq<usize>) -> bool {
    &&& points.len() >= 1
    &&& points[0] == 0
    &&& forall|j: int, k: int| 0 <= j < k < points.len() ==> points[j] < points[k]
    &&& forall|k: int| 0 <= k < points.len() ==> starts_scene(scenes, #[trigger] points[k] as int)
}

/// Index of the first scene after window `k`: the scene that starts at the
/// next split point, or the number of scenes after the last window.
pub open spec fn window_stop(scenes: Seq<Scene>, points: Seq<usize>, k: int) -> int {
    if k + 1 < points.len() {
        scene_at(scenes, points[k + 1] as int)
    } else {
        scenes.len() as int
    }
}

/// In scenes that cover a video, a later scene starts after an earlier one
/// ends.
proof fn lemma_later_scene(scenes: Seq<Scene>, frames: int, i: int, j: int)
    requires
        scenes_cover(scenes, frames),
        0 <= i < scenes.len(),
        0 <= j < scenes.len(),
    ensures
        i < j ==> scenes[i].start_frame < scenes[i].end_frame <= scenes[j].start_frame,
        scenes[i].start_frame < scenes[j].start_frame ==> i < j,
        scenes[i].start_frame == scenes[j].start_frame ==> i == j,
        scenes[i].start_frame < scenes[i].end_frame <= frames,
{
    lemma_chain_within(scenes, 0, frames, i);
    if i < j {
        lemma_chain_ordered(scenes, 0, frames, i, j);
    } else if j < i {
        lemma_chain_ordered(scenes, 0, frames, j, i);
    }
}

/// In scenes that cover a video, the scene at the start of a scene is that
/// scene.
proof fn lemma_scene_at(scenes: Seq<Scene>, frames: int, i: int)
    requires
        scenes_cover(scenes, frames),
        0 <= i < scenes.len(),
    ensures
        scene_at(scenes, scenes[i].start_frame as int) == i,
{
    let found = scene_at(scenes, scenes[i].start_frame as int);
    assert(scenes[found].start_frame == scenes[i].start_frame);
    lemma_later_scene(scenes, frames, found, i);
}

/// The scene at a frame that starts a scene starts at that frame.
proof fn lemma_scene_at_starts(scenes: Seq<Scene>, frame: int)
    requires
        starts_scene(scenes, frame),
    ensures
        0 <= scene_at(scenes, frame) < scenes.len(),
        scenes[scene_at(scenes, frame)].start_frame == frame,
{
}

/// The scenes from `from` on, `count` of them, as picks of one window that
/// starts at frame `x`.
pub open spec fn run_of_picks(scenes: Seq<Scene>, file: int, from: int, x: int, count: int) -> Seq<
    Pick,
> {
    Seq::new(
        count as nat,
        |i: int|
            Pick {
                file,
                start: scenes[from + i].start_frame - x,
                end: scenes[from + i].end_frame - x,
            },
    )
}

/// How many of the scenes from `from` up to, not including, `to` are among
/// the first `upto` scenes.
pub open spec fn seen_of(from: int, to: int, upto: int) -> int {
    if upto <= from {
        0
    } else if upto >= to {
        to - from
    } else {
        upto - from
    }
}

/// Whether a scene lies in the window from the start of scene `from` to the
/// start of scene `to`, or to the end of the video: it does when it is one of
/// the scenes from `from` up to, not including, `to`.
proof fn lemma_fits_window(scenes: Seq<Scene>, frames: int, from: int, to: int, j: int)
    requires
        scenes_cover(scenes, frames),
        0 <= from < to <= scenes.len(),
        0 <= j < scenes.len(),
    ensures
        fits(
            scenes[j],
            scenes[from].start_frame as int,
            if to < scenes.len() {
                scenes[to].start_frame as int
            } else {
                frames
            },
        ) == (from <= j < to),
{
    lemma_later_scene(scenes, frames, j, from);
    lemma_later_scene(scenes, frames, from, j);
    if to < scenes.len() {
        lemma_later_scene(scenes, frames, j, to);
        lemma_later_scene(scenes, frames, to, j);
        if j + 1 < scenes.len() {
            lemma_later_scene(scenes, frames, j + 1, to);
            lemma_later_scene(scenes, frames, j, j + 1);
            assert(scenes[j].end_frame == scenes[j + 1].start_frame);
        }
    }
}

/// The picks of a window that runs from the start of scene `from` to the
/// start of scene `to` (or to the end of the video) are the scenes from
/// `from` up to, not including, `to`, as far as `upto` scenes are looked at.
proof fn lemma_window_picks(
    scenes: Seq<Scene>,
    frames: int,
    file: int,
    from: int,
    to: int,
    upto: int,
)
    requires
        scenes_cover(scenes, frames),
        0 <= from < to <= scenes.len(),
        0 <= upto <= scenes.len(),
    ensures
        window_picks(
            scenes.take(upto),
            file,
            scenes[from].start_frame as int,
            if to < scenes.len() {
                scenes[to].start_frame as int
            } else {
                frames
            },
        ) == run_of_picks(
            scenes,
            file,
            from,
            scenes[from].start_frame as int,
            seen_of(from, to, upto),
        ),
    decreases upto,
{
    let x = scenes[from].start_frame as int;
    let y = if to < scenes.len() {
        scenes[to].start_frame as int
    } else {
        frames
    };
    let now = scenes.take(upto);
    let picks = window_picks(now, file, x, y);
    let wanted = run_of_picks(scenes, file, from, x, seen_of(from, to, upto));
    if upto == 0 {
        assert(picks =~= wanted);
    } else {
        let j = upto - 1;
        assert(now.drop_last() =~= scenes.take(j));
        assert(now.last() == scenes[j]);
        lemma_window_picks(scenes, frames, file, from, to, j);
        lemma_fits_window(scenes, frames, from, to, j);
        let before = run_of_picks(scenes, file, from, x, seen_of(from, to, j));
        assert(window_picks(scenes.take(j), file, x, y) == before);
        if from <= j < to {
            let pick = Pick {
                file,
                start: scenes[j].start_frame - x,
                end: scenes[j].end_frame - x,
            };
            assert(picks == before.push(pick));
            assert(before.push(pick) =~= wanted);
        } else {
            assert(picks == before);
            assert(before =~= wanted);
        }
    }
}

/// Where the split points fit the scenes, the hybrid strategy picks every
/// scene once, in the order of the scenes: pick `i`, counted from the start
/// of the video, is scene `i`.
pub proof fn lemma_hybrid_picks_are_scenes(scenes: Seq<Scene>, points: Seq<usize>, frames: int)
    requires
        scenes_cover(scenes, frames),
        points_fit(scenes, points),
    ensures
        hybrid_picks(scenes, points, frames, points.len() as int).len() == scenes.len(),
        picks_are_scenes(
            scenes,
            points,
            hybrid_picks(scenes, points, frames, points.len() as int),
            points.len() as int,
        ),
{
    lemma_hybrid_picks_upto(scenes, points, frames, points.len() as int);
}

/// Whether the picks are the first scenes, each in one of the first
/// `windows` windows: pick `i` has the frames of scene `i`, counted from the
/// split point of its window.
pub open spec fn picks_are_scenes(
    scenes: Seq<Scene>,
    points: Seq<usize>,
    picks: Seq<Pick>,
    windows: int,
) -> bool {
    &&& picks.len() <= scenes.len()
    &&& forall|i: int|
        0 <= i < picks.len() ==> 0 <= (#[trigger] picks[i]).file < windows && 0 <= picks[i].start
            && picks[i].start + points[picks[i].file] == scenes[i].start_frame && picks[i].end
            + points[picks[i].file] == scenes[i].end_frame
}

/// The scenes of one window, added to picks that are the scenes before the
/// window, make picks that are the scenes up to the end of the window.
proof fn lemma_picks_grow(
    scenes: Seq<Scene>,
    points: Seq<usize>,
    frames: int,
    earlier: Seq<Pick>,
    k: int,
    to: int,
)
    requires
        scenes_cover(scenes, frames),
        0 <= k < points.len(),
        picks_are_scenes(scenes, points, earlier, k),
        earlier.len() < to <= scenes.len(),
        scenes[earlier.len() as int].start_frame == points[k],
    ensures
        picks_are_scenes(
            scenes,
            points,
            earlier + run_of_picks(
                scenes,
                k,
                earlier.len() as int,
                points[k] as int,
                to - earlier.len(),
            ),
            k + 1,
        ),
        (earlier + run_of_picks(
            scenes,
            k,
            earlier.len() as int,
            points[k] as int,
            to - earlier.len(),
        )).len() == to,
{
    let from = earlier.len() as int;
    let mine = run_of_picks(scenes, k, from, points[k] as int, to - from);
    let picks = earlier + mine;
    assert forall|i: int| 0 <= i < picks.len() implies 0 <= (#[trigger] picks[i]).file < k + 1
        && 0 <= picks[i].start && picks[i].start + points[picks[i].file]
        == scenes[i].start_frame && picks[i].end + points[picks[i].file]
        == scenes[i].end_frame by {
        if i < from {
            assert(picks[i] == earlier[i]);
        } else {
            assert(picks[i] == mine[i - from]);
            lemma_later_scene(scenes, frames, from, i);
            lemma_later_scene(scenes, frames, i, from);
        }
    }
}

/// The picks of the first `windows` windows are the scenes before the first
/// scene after those windows.
proof fn lemma_hybrid_picks_upto(scenes: Seq<Scene>, points: Seq<usize>, frames: int, windows: int)
    requires
        scenes_cover(scenes, frames),
        points_fit(scenes, points),
        1 <= windows <= points.len(),
    ensures
        picks_are_scenes(scenes, points, hybrid_picks(scenes, points, frames, windows), windows),
        hybrid_picks(scenes, points, frames, windows).len() == window_stop(
            scenes,
            points,
            windows - 1,
        ),
        0 < window_stop(scenes, points, windows - 1) <= scenes.len(),
    decreases windows,
{
    let k = windows - 1;
    let from = scene_at(scenes, points[k] as int);
    let to = window_stop(scenes, points, k);
    assert(starts_scene(scenes, points[k] as int));
    lemma_scene_at_starts(scenes, points[k] as int);
    if k + 1 < points.len() {
        assert(starts_scene(scenes, points[k + 1] as int));
        lemma_scene_at_starts(scenes, points[k + 1] as int);
        assert(points[k] < points[k + 1]);
        lemma_later_scene(scenes, frames, from, to);
    }
    assert(0 <= from < to <= scenes.len());
    let earlier = hybrid_picks(scenes, points, frames, k);
    if k == 0 {
        assert(earlier =~= Seq::<Pick>::empty());
        lemma_scene_at(scenes, frames, 0);
        assert(from == 0);
    } else {
        lemma_hybrid_picks_upto(scenes, points, frames, k);
        assert(window_stop(scenes, points, k - 1) == from);
    }
    assert(earlier.len() == from);
    assert(picks_are_scenes(scenes, points, earlier, k));
    lemma_window_picks(scenes, frames, k, from, to, scenes.len() as int);
    assert(scenes.take(scenes.len() as int) =~= scenes);
    assert(window_end(points, frames, k) == if to < scenes.len() {
        scenes[to].start_frame as int
    } else {
        frames
    });
    assert(seen_of(from, to, scenes.len() as int) == to - from);
    lemma_picks_grow(scenes, points, frames, earlier, k, to);
}

/// The key-frames that start a scene, of key-frames that rise: they rise,
/// every one of them starts a scene, and none of them is above the last
/// key-frame.
proof fn lemma_candidates_rise(scenes: Seq<Scene>, keyframes: Seq<usize>)
    requires
        forall|i: int, j: int| 0 <= i < j < keyframes.len() ==> keyframes[i] < keyframes[j],
    ensures
        forall|i: int, j: int|
            0 <= i < j < split_candidates(keyframes, scenes).len() ==> split_candidates(
                keyframes,
                scenes,
            )[i] < split_candidates(keyframes, scenes)[j],
        forall|k: int|
            0 <= k < split_candidates(keyframes, scenes).len() ==> starts_scene(
                scenes,
                #[trigger] split_candidates(keyframes, scenes)[k] as int,
            ),
        forall|k: int|
            0 <= k < split_candidates(keyframes, scenes).len() ==> keyframes.len() > 0
                && #[trigger] split_candidates(keyframes, scenes)[k] <= keyframes.last(),
        keyframes.len() > 0 && starts_scene(scenes, keyframes[0] as int) ==> split_candidates(
            keyframes,
            scenes,
        ).len() > 0 && split_candidates(keyframes, scenes)[0] == keyframes[0],
    decreases keyframes.len(),
{
    reveal(Seq::filter);
    let keep = |k: usize| starts_scene(scenes, k as int);
    let points = split_candidates(keyframes, scenes);
    if keyframes.len() > 0 {
        let front = keyframes.drop_last();
        lemma_candidates_rise(scenes, front);
        let before = split_candidates(front, scenes);
        assert(before == front.filter(keep));
        if keep(keyframes.last()) {
            assert(points == before.push(keyframes.last()));
            assert forall|i: int, j: int| 0 <= i < j < points.len() implies points[i]
                < points[j] by {
                if j < before.len() {
                } else {
                    assert(points[i] == before[i]);
                    assert(before[i] <= front.last());
                    assert(front.last() == keyframes[keyframes.len() - 2]);
                }
            }
            assert forall|k: int| 0 <= k < points.len() implies starts_scene(
                scenes,
                #[trigger] points[k] as int,
            ) && points[k] <= keyframes.last() by {
                if k < before.len() {
                    assert(points[k] == before[k]);
                    assert(before[k] <= front.last());
                    assert(front.last() == keyframes[keyframes.len() - 2]);
                }
            }
            if keyframes.len() > 1 {
                assert(front[0] == keyframes[0]);
            }
        } else {
            assert(points == before);
            assert forall|k: int| 0 <= k < points.len() implies #[trigger] points[k]
                <= keyframes.last() by {
                assert(before[k] <= front.last());
                assert(front.last() == keyframes[keyframes.len() - 2]);
            }
            if keyframes.len() > 1 {
                assert(front[0] == keyframes[0]);
            }
        }
    }
}

/// Whether a chunk has the frames of a scene, counted from one of the
/// split points.
pub open spec fn chunk_is_scene(chunk: ChunkModel, scene: Scene, points: Seq<usize>) -> bool {
    exists|k: int|
        0 <= k < points.len() && chunk.start_frame + #[trigger] points[k] == scene.start_frame
            && chunk.end_frame + points[k] == scene.end_frame
}

impl Av1anContext {
    /// The frames of a planned chunk are those of its pick.
    proof fn lemma_plan_range(&self, segments: Seq<SegmentFile>, picks: Seq<Pick>, i: int)
        requires
            0 <= i < picks.len(),
        ensures
            self.picks_plan(segments, picks).len() == picks.len(),
            self.picks_plan(segments, picks)[i].start_frame == picks[i].start as nat,
            self.picks_plan(segments, picks)[i].end_frame == picks[i].end as nat,
    {
    }

    /// The hybrid plan of a video input with a split point is made of the
    /// picks of as many windows as there are split points and segment files.
    proof fn lemma_hybrid_plan_is(
        &self,
        scenes: Seq<Scene>,
        keyframes: Seq<usize>,
        segments: Seq<SegmentFile>,
    )
        requires
            self.args.input@ is Video,
            split_candidates(keyframes, scenes).len() > 0,
            segments.len() >= split_candidates(keyframes, scenes).len(),
        ensures
            self.hybrid_plan(scenes, keyframes, segments) == Ok::<Seq<ChunkModel>, PlannerError>(
                self.picks_plan(
                    segments,
                    hybrid_picks(
                        scenes,
                        split_candidates(keyframes, scenes),
                        self.frames as int,
                        split_candidates(keyframes, scenes).len() as int,
                    ),
                ),
            ),
    {
    }

    /// Where the key-frames of the video rise and start with its first
    /// frame, the scenes cover the video, and there is a segment file for
    /// every split point, the hybrid strategy plans one chunk per scene, in
    /// the order of the scenes, and every chunk has the frames of its scene,
    /// counted from a split point: moved back to where their segments start,
    /// the chunks split the frames of the video among themselves as the
    /// scenes do.
    pub proof fn lemma_hybrid_plan_covers(
        &self,
        scenes: Seq<Scene>,
        keyframes: Seq<usize>,
        segments: Seq<SegmentFile>,
    )
        requires
            self.args.input@ is Video,
            scenes_cover(scenes, self.frames as int),
            self.frames > 0,
            keyframes.len() > 0,
            keyframes[0] == 0,
            forall|i: int, j: int| 0 <= i < j < keyframes.len() ==> keyframes[i] < keyframes[j],
            segments.len() >= split_candidates(keyframes, scenes).len(),
        ensures
            self.hybrid_plan(scenes, keyframes, segments) is Ok,
            self.hybrid_plan(scenes, keyframes, segments).unwrap().len() == scenes.len(),
            forall|i: int|
                0 <= i < scenes.len() ==> chunk_is_scene(
                    #[trigger] self.hybrid_plan(scenes, keyframes, segments).unwrap()[i],
                    scenes[i],
                    split_candidates(keyframes, scenes),
                ),
    {
        let points = split_candidates(keyframes, scenes);
        lemma_candidates_rise(scenes, keyframes);
        assert(scenes.len() > 0);
        assert(scenes[0].start_frame == 0);
        assert(starts_scene(scenes, keyframes[0] as int));
        assert(points_fit(scenes, points));
        lemma_hybrid_picks_are_scenes(scenes, points, self.frames as int);
        self.lemma_hybrid_plan_is(scenes, keyframes, segments);
        let picks = hybrid_picks(scenes, points, self.frames as int, points.len() as int);
        let plan = self.picks_plan(segments, picks);
        assert(self.hybrid_plan(scenes, keyframes, segments).unwrap() == plan);
        assert(picks.len() == scenes.len());
        assert forall|i: int| 0 <= i < scenes.len() implies chunk_is_scene(
            #[trigger] plan[i],
            scenes[i],
            points,
        ) by {
            self.lemma_plan_range(segments, picks, i);
            lemma_later_scene(scenes, self.frames as int, i, i);
            let k = picks[i].file;
            assert(0 <= picks[i].start);
            assert(plan[i].start_frame + points[k] == scenes[i].start_frame);
            assert(plan[i].end_frame + points[k] == scenes[i].end_frame);
        }
    }
}

} // verus!
