//! Chunks: the self-contained encode jobs that a video is cut into.

use vstd::prelude::*;
use crate::scenes::Scene;
use crate::util::{append_padded_decimal, lemma_padded_five_sorts, padded_decimal, sorts_before};

verus! {

/// Width that chunk indices are padded to in chunk names.
pub const NAME_WIDTH: u32 = 5;

/// The encoders that a chunk can be encoded with.
#[derive(Debug, Clone, Copy, PartialEq, Eq, Hash, Structural)]
pub enum Encoder {
    Aom,
    Rav1e,
    Vpx,
    SvtAv1,
    X264,
    X265,
}

/// File extension of the bitstream that an encoder writes.
pub open spec fn output_extension_spec(encoder: Encoder) -> Seq<char> {
    match encoder {
        Encoder::X264 => "264"@,
        Encoder::X265 => "hevc"@,
        _ => "ivf"@,
    }
}

impl Encoder {
    /// File extension of the bitstream that the encoder writes.
    pub fn output_extension(&self) -> (extension: &'static str)
        ensures
            extension@ == output_extension_spec(*self),
    {
        match self {
            Encoder::X264 => "264",
            Encoder::X265 => "hevc",
            _ => "ivf",
        }
    }
}

/// A frame rate as a fraction of frames per second.
#[derive(Debug, Clone, Copy, PartialEq, Eq, Structural)]
pub struct FrameRate {
    pub numerator: u32,
    pub denominator: u32,
}

/// Where the frames of a chunk come from.
#[derive(Debug, PartialEq, Eq)]
pub enum Input {
    /// A container file.
    Video { path: String },
    /// A frame-server script and the arguments handed to it.
    VapourSynth { path: String, vspipe_args: Vec<String> },
}

/// An [`Input`] as plain text values.
pub enum InputModel {
    Video { path: Seq<char> },
    VapourSynth { path: Seq<char>, vspipe_args: Seq<Seq<char>> },
}

impl View for Input {
    type V = InputModel;

    open spec fn view(&self) -> InputModel {
        match self {
            Input::Video { path } => InputModel::Video { path: path@ },
            Input::VapourSynth { path, vspipe_args } => InputModel::VapourSynth {
                path: path@,
                vspipe_args: vspipe_args.deep_view(),
            },
        }
    }
}

impl InputModel {
    /// The path of the file or script.
    pub open spec fn path(self) -> Seq<char> {
        match self {
            InputModel::Video { path } => path,
            InputModel::VapourSynth { path, .. } => path,
        }
    }

    /// The arguments handed to the frame server; none for a container file.
    pub open spec fn script_args(self) -> Seq<Seq<char>> {
        match self {
            InputModel::Video { .. } => Seq::empty(),
            InputModel::VapourSynth { vspipe_args, .. } => vspipe_args,
        }
    }
}

impl Input {
    /// Whether the input is a container file.
    pub fn is_video(&self) -> (video: bool)
        ensures
            video == (self@ is Video),
    {
        match self {
            Input::Video { .. } => true,
            Input::VapourSynth { .. } => false,
        }
    }

    /// Whether the input is a frame-server script.
    pub fn is_vapoursynth(&self) -> (script: bool)
        ensures
            script == (self@ is VapourSynth),
    {
        match self {
            Input::Video { .. } => false,
            Input::VapourSynth { .. } => true,
        }
    }

    /// The path of the file or script.
    pub fn path(&self) -> (path: &String)
        ensures
            path@ == self@.path(),
    {
        match self {
            Input::Video { path } => path,
            Input::VapourSynth { path, .. } => path,
        }
    }

    /// The arguments handed to the frame server; none for a container file.
    pub fn script_args(&self) -> (args: Vec<String>)
        ensures
            args.deep_view() == self@.script_args(),
    {
        match self {
            Input::Video { .. } => {
                let args: Vec<String> = Vec::new();
                assert(args.deep_view() =~= Seq::<Seq<char>>::empty());
                args
            },
            Input::VapourSynth { vspipe_args, .. } => clone_texts(vspipe_args),
        }
    }

    /// A copy of the input.
    pub fn duplicate(&self) -> (copy: Input)
        ensures
            copy@ == self@,
    {
        match self {
            Input::Video { path } => Input::Video { path: path.clone() },
            Input::VapourSynth { path, vspipe_args } => Input::VapourSynth {
                path: path.clone(),
                vspipe_args: clone_texts(vspipe_args),
            },
        }
    }
}

/// Copies a list of texts.
pub fn clone_texts(texts: &Vec<String>) -> (copy: Vec<String>)
    ensures
        copy.deep_view() == texts.deep_view(),
{
    let mut copy: Vec<String> = Vec::new();
    let mut i: usize = 0;
    while i < texts.len()
        invariant
            i <= texts.len(),
            copy@.len() == i,
            forall|j: int| 0 <= j < i ==> (#[trigger] copy@[j])@ == texts@[j]@,
        decreases texts.len() - i,
    {
        copy.push(texts[i].clone());
        i += 1;
    }
    assert(copy.deep_view() =~= texts.deep_view());
    copy
}

/// Appends a text to a list of texts.
pub fn push_text(texts: &mut Vec<String>, text: &str)
    ensures
        final(texts).deep_view() == old(texts).deep_view().push(text@),
{
    texts.push(String::from_str(text));
    assert(texts.deep_view() =~= old(texts).deep_view().push(text@));
}

/// Appends an owned text to a list of texts.
pub fn push_string(texts: &mut Vec<String>, text: String)
    ensures
        final(texts).deep_view() == old(texts).deep_view().push(text@),
{
    texts.push(text);
    assert(texts.deep_view() =~= old(texts).deep_view().push(text@));
}

/// Appends a list of texts to a list of texts.
pub fn push_texts(texts: &mut Vec<String>, more: &Vec<String>)
    ensures
        final(texts).deep_view() == old(texts).deep_view() + more.deep_view(),
{
    let mut i: usize = 0;
    assert(more.deep_view().take(0) =~= Seq::<Seq<char>>::empty());
    assert(texts.deep_view() =~= old(texts).deep_view() + more.deep_view().take(0));
    while i < more.len()
        invariant
            i <= more.len(),
            texts.deep_view() == old(texts).deep_view() + more.deep_view().take(i as int),
        decreases more.len() - i,
    {
        push_string(texts, more[i].clone());
        assert(more.deep_view().take(i + 1) =~= more.deep_view().take(i as int).push(more@[i as int]@));
        assert(texts.deep_view() =~= old(texts).deep_view() + more.deep_view().take(i + 1));
        i += 1;
    }
    assert(more.deep_view().take(more@.len() as int) =~= more.deep_view());
}

/// One encode job: a range of frames, where they come from and how they are
/// to be encoded.
#[derive(Debug, PartialEq, Eq)]
pub struct Chunk {
    /// Working directory shared with the other chunks of the run.
    pub temp: String,
    /// Position of the chunk in the video, counted from zero.
    pub index: usize,
    /// The file or script that the frames come from.
    pub input: Input,
    /// Program and arguments that write the chunk's raw frames to standard
    /// output.
    pub source_cmd: Vec<String>,
    /// File extension of the encoded chunk.
    pub output_ext: String,
    /// First frame of the chunk.
    pub start_frame: usize,
    /// Frame after the last frame of the chunk.
    pub end_frame: usize,
    /// Frame rate of the video.
    pub frame_rate: FrameRate,
    /// Arguments for the encoder.
    pub video_params: Vec<String>,
    /// Number of passes, one or two.
    pub passes: u8,
    /// The encoder to use.
    pub encoder: Encoder,
    /// Whether an encode with another number of frames is accepted.
    pub ignore_frame_mismatch: bool,
    /// The quantizer that the quality search chose, once it has.
    pub tq_cq: Option<u32>,
}

/// A [`Chunk`] as plain values.
pub struct ChunkModel {
    pub temp: Seq<char>,
    pub index: nat,
    pub input: InputModel,
    pub source_cmd: Seq<Seq<char>>,
    pub output_ext: Seq<char>,
    pub start_frame: nat,
    pub end_frame: nat,
    pub frame_rate: FrameRate,
    pub video_params: Seq<Seq<char>>,
    pub passes: u8,
    pub encoder: Encoder,
    pub ignore_frame_mismatch: bool,
    pub tq_cq: Option<u32>,
}

impl View for Chunk {
    type V = ChunkModel;

    open spec fn view(&self) -> ChunkModel {
        ChunkModel {
            temp: self.temp@,
            index: self.index as nat,
            input: self.input@,
            source_cmd: self.source_cmd.deep_view(),
            output_ext: self.output_ext@,
            start_frame: self.start_frame as nat,
            end_frame: self.end_frame as nat,
            frame_rate: self.frame_rate,
            video_params: self.video_params.deep_view(),
            passes: self.passes,
            encoder: self.encoder,
            ignore_frame_mismatch: self.ignore_frame_mismatch,
            tq_cq: self.tq_cq,
        }
    }
}

/// The name of the chunk with this index: the index in decimal, padded with
/// zeros to five characters.
pub open spec fn chunk_name(index: nat) -> Seq<char> {
    padded_decimal(index, NAME_WIDTH as nat)
}

/// The path of the encoded chunk: `<temp>/encode/<name>.<extension>`.
pub open spec fn output_path(temp: Seq<char>, index: nat, extension: Seq<char>) -> Seq<char> {
    temp + "/encode/"@ + chunk_name(index) + "."@ + extension
}

impl ChunkModel {
    /// Number of frames in the chunk; zero for a chunk that ends before it
    /// starts.
    pub open spec fn frames(self) -> nat {
        if self.end_frame >= self.start_frame {
            (self.end_frame - self.start_frame) as nat
        } else {
            0
        }
    }

    /// The frames of the chunk as a scene.
    pub open spec fn range(self) -> Scene {
        Scene { start_frame: self.start_frame as usize, end_frame: self.end_frame as usize }
    }

    /// What holds of every chunk that the planner makes: it has frames, a
    /// source command, and one or two passes.
    pub open spec fn wf(self) -> bool {
        &&& self.start_frame < self.end_frame
        &&& self.source_cmd.len() >= 1
        &&& 1 <= self.passes <= 2
    }
}

impl Chunk {
    /// See [`ChunkModel::wf`].
    pub open spec fn wf(&self) -> bool {
        self@.wf()
    }

    /// The frames of the chunk as a scene.
    pub open spec fn range(&self) -> Scene {
        Scene { start_frame: self.start_frame, end_frame: self.end_frame }
    }

    /// Number of frames in the chunk; zero for a chunk that ends before it
    /// starts.
    pub fn frames(&self) -> (count: usize)
        ensures
            count == self@.frames(),
    {
        if self.end_frame >= self.start_frame {
            self.end_frame - self.start_frame
        } else {
            0
        }
    }

    /// The name of the chunk.
    pub fn name(&self) -> (name: String)
        ensures
            name@ == chunk_name(self@.index),
    {
        name_of(self.index)
    }

    /// The path of the encoded chunk.
    pub fn output(&self) -> (path: String)
        ensures
            path@ == output_path(self@.temp, self@.index, self@.output_ext),
    {
        let mut path = self.temp.clone();
        path.append("/encode/");
        append_padded_decimal(&mut path, self.index, NAME_WIDTH);
        path.append(".");
        path.append(self.output_ext.as_str());
        path
    }

    /// A copy of the chunk.
    pub fn duplicate(&self) -> (copy: Chunk)
        ensures
            copy@ == self@,
    {
        Chunk {
            temp: self.temp.clone(),
            index: self.index,
            input: self.input.duplicate(),
            source_cmd: clone_texts(&self.source_cmd),
            output_ext: self.output_ext.clone(),
            start_frame: self.start_frame,
            end_frame: self.end_frame,
            frame_rate: self.frame_rate,
            video_params: clone_texts(&self.video_params),
            passes: self.passes,
            encoder: self.encoder,
            ignore_frame_mismatch: self.ignore_frame_mismatch,
            tq_cq: self.tq_cq,
        }
    }

    /// Records the quantizer that the quality search chose for the chunk.
    pub fn set_target_quantizer(&mut self, quantizer: u32)
        ensures
            final(self)@ == (ChunkModel { tq_cq: Some(quantizer), ..old(self)@ }),
    {
        self.tq_cq = Some(quantizer);
    }
}

/// The name of the chunk with this index.
pub fn name_of(index: usize) -> (name: String)
    ensures
        name@ == chunk_name(index as nat),
{
    let mut name = String::new();
    append_padded_decimal(&mut name, index, NAME_WIDTH);
    assert(name@ =~= chunk_name(index as nat));
    name
}

/// Chunk names sort as texts the way their indices sort as numbers, for
/// every video of fewer than one hundred thousand chunks.
pub proof fn lemma_names_sort_like_indices(first: nat, second: nat)
    requires
        first < second < 100_000,
    ensures
        sorts_before(chunk_name(first), chunk_name(second)),
{
    lemma_padded_five_sorts(first, second);
}

/// Different chunks have different names.
pub proof fn lemma_names_differ(first: nat, second: nat)
    requires
        first != second,
    ensures
        chunk_name(first) != chunk_name(second),
{
    crate::text::lemma_padded_decimal_differs(first, second, NAME_WIDTH as nat);
}

} // verus!
