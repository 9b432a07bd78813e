//! The settings of a run.

use vstd::prelude::*;
use crate::chunk::{Encoder, FrameRate, Input};
use crate::planner::ChunkOrdering;
use crate::target_quality::TargetQuality;
use crate::util::{append_decimal_u64, decimal_text};

verus! {

/// How chunks get their frames.
#[derive(Debug, Clone, Copy, PartialEq, Eq, Structural)]
pub enum ChunkMethod {
    /// Decode the whole file for every chunk and keep the chunk's frames.
    Select,
    /// Cut the file at key-frames that start a scene, then select within the
    /// segments.
    Hybrid,
    /// Cut the file at the scene boundaries and encode the segments.
    Segment,
    /// Frame server with the L-SMASH source.
    LSMASH,
    /// Frame server with the FFMS2 source.
    FFMS2,
    /// Frame server with the DGDecNV source.
    DGDECNV,
    /// Frame server with the BestSource source.
    BESTSOURCE,
}

impl ChunkMethod {
    /// Whether chunks get their frames from a frame-server script.
    pub open spec fn is_script_spec(self) -> bool {
        self is LSMASH || self is FFMS2 || self is DGDECNV || self is BESTSOURCE
    }

    /// Whether chunks get their frames from a frame-server script.
    pub fn is_script(&self) -> (script: bool)
        ensures
            script == self.is_script_spec(),
    {
        match self {
            ChunkMethod::LSMASH | ChunkMethod::FFMS2 | ChunkMethod::DGDECNV | ChunkMethod::BESTSOURCE => true,
            _ => false,
        }
    }
}

/// How scene boundaries are found.
#[derive(Debug, Clone, Copy, PartialEq, Eq, Structural)]
pub enum SplitMethod {
    /// By scene detection.
    AvScenechange,
    /// Not at all: the whole video is one scene.
    NoSplit,
}

/// How much a run shows of itself.
#[derive(Debug, Clone, Copy, PartialEq, Eq, Structural)]
pub enum Verbosity {
    Quiet,
    Normal,
    Verbose,
}

/// How the encoded chunks are put together.
#[derive(Debug, Clone, Copy, PartialEq, Eq, Structural)]
pub enum ConcatMethod {
    /// With the container-specific muxer.
    MKVMerge,
    /// With the general muxer.
    FFmpeg,
    /// By joining the raw bitstreams.
    Ivf,
}

/// A pixel format and its bit depth.
#[derive(Debug, PartialEq, Eq)]
pub struct PixelFormat {
    pub format: String,
    pub bit_depth: usize,
}

/// What is known of the pixel format of the input.
#[derive(Debug, PartialEq, Eq)]
pub enum InputPixelFormat {
    /// A frame-server script tells the bit depth.
    VapourSynth { bit_depth: usize },
    /// A container file tells the format.
    FFmpeg { format: String },
}

/// Everything a run is told.
#[derive(Debug, PartialEq, Eq)]
pub struct EncodeArgs {
    /// The video to encode.
    pub input: Input,
    /// Frame rate of the video.
    pub frame_rate: FrameRate,
    /// Working directory of the run.
    pub temp: String,
    /// Whether an interrupted run is to be taken up again.
    pub resume: bool,
    /// Whether the working directory is kept after the run.
    pub keep: bool,
    /// File with scene boundaries to use or to write.
    pub scenes: Option<String>,
    /// How scene boundaries are found.
    pub split_method: SplitMethod,
    /// Whether the run ends after scene detection.
    pub sc_only: bool,
    /// Frames at which a scene has to start.
    pub force_keyframes: Vec<usize>,
    /// Most frames that a scene may have.
    pub extra_splits_len: Option<usize>,
    /// How chunks get their frames.
    pub chunk_method: ChunkMethod,
    /// Order in which chunks are handed out.
    pub chunk_order: ChunkOrdering,
    /// The encoder.
    pub encoder: Encoder,
    /// Number of passes, one or two.
    pub passes: u8,
    /// Arguments for the encoder.
    pub video_params: Vec<String>,
    /// Arguments for the audio encoder.
    pub audio_params: Vec<String>,
    /// Arguments for the pixel-format converter.
    pub ffmpeg_filter_args: Vec<String>,
    /// Pixel format of the input.
    pub input_pix_format: InputPixelFormat,
    /// Pixel format to encode in.
    pub output_pix_format: PixelFormat,
    /// Number of workers; zero to let the run choose.
    pub workers: usize,
    /// How often a pass is tried.
    pub max_tries: usize,
    /// Whether an encode with another number of frames is accepted.
    pub ignore_frame_mismatch: bool,
    /// How the encoded chunks are put together.
    pub concat: ConcatMethod,
    /// Where the result goes.
    pub output_file: String,
    /// How much the run shows of itself.
    pub verbosity: Verbosity,
    /// The quantizer search to run for every chunk, if any.
    pub target_quality: Option<TargetQuality>,
}

/// What is wrong with the settings of a run.
#[derive(Debug, Clone, Copy, PartialEq, Eq, Structural)]
pub enum ArgsError {
    /// The number of passes is neither one nor two.
    Passes { passes: u8 },
    /// There is no try per pass.
    NoTries,
    /// The quantizer search has no quantizer to choose from.
    QuantizerRange { min_q: u32, max_q: u32 },
}

/// What is said of settings that are not sound.
pub open spec fn fault_text(error: ArgsError) -> Seq<char> {
    match error {
        ArgsError::Passes { passes } => "the number of passes is "@ + decimal_text(passes as nat)
            + ", and has to be 1 or 2"@,
        ArgsError::NoTries => "the number of tries is 0, and has to be 1 at least"@,
        ArgsError::QuantizerRange { min_q, max_q } => "the lowest quantizer, "@ + decimal_text(
            min_q as nat,
        ) + ", is above the highest, "@ + decimal_text(max_q as nat),
    }
}

impl ArgsError {
    /// Words what is wrong with the settings.
    pub fn message(&self) -> (text: String)
        ensures
            text@ == fault_text(*self),
    {
        match self {
            ArgsError::Passes { passes } => {
                let mut text = String::from_str("the number of passes is ");
                append_decimal_u64(&mut text, *passes as u64);
                text.append(", and has to be 1 or 2");
                text
            },
            ArgsError::NoTries => String::from_str(
                "the number of tries is 0, and has to be 1 at least",
            ),
            ArgsError::QuantizerRange { min_q, max_q } => {
                let mut text = String::from_str("the lowest quantizer, ");
                append_decimal_u64(&mut text, *min_q as u64);
                text.append(", is above the highest, ");
                append_decimal_u64(&mut text, *max_q as u64);
                text
            },
        }
    }
}

impl EncodeArgs {
    /// What is wrong with the settings, if anything. Of several faults the
    /// first in the order of [`ArgsError`] is named.
    pub open spec fn fault(&self) -> Option<ArgsError> {
        if self.passes < 1 || self.passes > 2 {
            Some(ArgsError::Passes { passes: self.passes })
        } else if self.max_tries == 0 {
            Some(ArgsError::NoTries)
        } else {
            match self.target_quality {
                Some(tq) => if tq.min_q > tq.max_q {
                    Some(ArgsError::QuantizerRange { min_q: tq.min_q, max_q: tq.max_q })
                } else {
                    None
                },
                None => None,
            }
        }
    }

    /// Checks the settings.
    pub fn validate(&self) -> (result: Result<(), ArgsError>)
        ensures
            match result {
                Ok(_) => self.fault() is None,
                Err(e) => self.fault() == Some(e),
            },
    {
        if self.passes < 1 || self.passes > 2 {
            return Err(ArgsError::Passes { passes: self.passes });
        }
        if self.max_tries == 0 {
            return Err(ArgsError::NoTries);
        }
        match &self.target_quality {
            Some(tq) => if tq.min_q > tq.max_q {
                Err(ArgsError::QuantizerRange { min_q: tq.min_q, max_q: tq.max_q })
            } else {
                Ok(())
            },
            None => Ok(()),
        }
    }
}

} // verus!
