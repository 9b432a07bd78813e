//! Progress accounting: the state of the total bar and of the per-worker
//! bars, as plain values. Drawing is left to the caller, which mirrors this
//! state onto whatever it draws with.

use vstd::prelude::*;
use crate::chunk::FrameRate;
use crate::ledger::{bytes_sum, frames_sum, DoneLedger};
use crate::settings::Verbosity;
use crate::util::{
    append_decimal,
    append_decimal_u64,
    decimal_text,
    digit_char,
    digit_str,
    printable_base10_digits,
};

verus! {

/// How a bar presents itself.
#[derive(Debug, Clone, Copy, PartialEq, Eq, Structural)]
pub enum BarStyle {
    /// A spinner with a frame count, for work of unknown length.
    Spinner { resume_frames: u64 },
    /// A bar with position, length, rate and time left.
    Progress { resume_frames: u64 },
    /// One line of text for one worker.
    Worker,
}

/// One bar.
#[derive(Debug, PartialEq, Eq)]
pub struct Bar {
    pub position: u64,
    pub length: u64,
    pub prefix: String,
    pub message: String,
    pub style: BarStyle,
    pub finished: bool,
}

/// A [`Bar`] as plain values.
pub struct BarModel {
    pub position: u64,
    pub length: u64,
    pub prefix: Seq<char>,
    pub message: Seq<char>,
    pub style: BarStyle,
    pub finished: bool,
}

impl View for Bar {
    type V = BarModel;

    open spec fn view(&self) -> BarModel {
        BarModel {
            position: self.position,
            length: self.length,
            prefix: self.prefix@,
            message: self.message@,
            style: self.style,
            finished: self.finished,
        }
    }
}

impl BarModel {
    /// The bar moved forward; the position wraps around at the end of its
    /// range.
    pub open spec fn advanced(self, inc: u64) -> BarModel {
        BarModel { position: ((self.position + inc) % 0x1_0000_0000_0000_0000) as u64, ..self }
    }

    /// The bar moved back, but not below zero.
    pub open spec fn rewound(self, dec: u64) -> BarModel {
        BarModel {
            position: if self.position >= dec {
                (self.position - dec) as u64
            } else {
                0
            },
            ..self
        }
    }

    /// The bar started over at a position.
    pub open spec fn reset_at(self, position: u64) -> BarModel {
        BarModel { position, finished: false, ..self }
    }
}

/// The bars of a run: the total bar of the plain display, the bars of the
/// detailed display (one per worker, then the total bar), and the size of the
/// audio track once it is known.
#[derive(Debug, PartialEq, Eq)]
pub struct ProgressBars {
    pub bar: Option<Bar>,
    pub multi: Option<Vec<Bar>>,
    pub audio_bytes: Option<u64>,
}

/// [`ProgressBars`] as plain values.
pub struct ProgressModel {
    pub bar: Option<BarModel>,
    pub multi: Option<Seq<BarModel>>,
    pub audio_bytes: Option<u64>,
}

/// The bars of a list as plain values.
pub open spec fn bar_models(bars: Seq<Bar>) -> Seq<BarModel> {
    Seq::new(bars.len(), |i: int| bars[i]@)
}

impl View for ProgressBars {
    type V = ProgressModel;

    open spec fn view(&self) -> ProgressModel {
        ProgressModel {
            bar: match self.bar {
                Some(bar) => Some(bar@),
                None => None,
            },
            multi: match self.multi {
                Some(bars) => Some(bar_models(bars@)),
                None => None,
            },
            audio_bytes: self.audio_bytes,
        }
    }
}

impl ProgressModel {
    /// The detailed display, where it exists, has its total bar.
    pub open spec fn wf(self) -> bool {
        self.multi matches Some(bars) ==> bars.len() >= 1
    }

    /// The state with the total bar of the plain display replaced.
    pub open spec fn with_bar(self, bar: BarModel) -> ProgressModel {
        ProgressModel { bar: Some(bar), ..self }
    }

    /// The state with one bar of the detailed display replaced.
    pub open spec fn with_multi(self, at: int, bar: BarModel) -> ProgressModel {
        ProgressModel { multi: Some(self.multi.unwrap().update(at, bar)), ..self }
    }

    /// The total bar of the detailed display.
    pub open spec fn total(self) -> BarModel {
        self.multi.unwrap().last()
    }

    /// Index of the total bar of the detailed display.
    pub open spec fn total_at(self) -> int {
        self.multi.unwrap().len() - 1
    }
}

/// The text in front of a total bar: `[<done>/<total> Chunks] `.
pub open spec fn chunks_prefix(done: u32, total: u32) -> Seq<char> {
    "["@ + decimal_text(done as nat) + "/"@ + decimal_text(total as nat) + " Chunks] "@
}

/// A run of spaces.
pub open spec fn spaces(count: nat) -> Seq<char> {
    Seq::new(count, |i: int| ' ')
}

/// A number in decimal, with spaces in front of it up to `width` characters.
pub open spec fn right_aligned(n: nat, width: nat) -> Seq<char> {
    if decimal_text(n).len() >= width {
        decimal_text(n)
    } else {
        spaces((width - decimal_text(n).len()) as nat) + decimal_text(n)
    }
}

/// The text in front of a worker's bar while it works on a chunk.
pub open spec fn chunk_prefix(chunk: nat, padding: nat) -> Seq<char> {
    "[Chunk "@ + right_aligned(chunk, padding) + "]"@
}

/// The text in front of a worker's bar while it has nothing to do; `digits`
/// is the number of digits of the highest chunk count.
pub open spec fn idle_prefix(digits: nat) -> Seq<char> {
    "[Idle  "@ + right_aligned(digits, digits) + "]"@
}

/// Appends a number in decimal, with spaces in front of it up to `width`
/// characters.
pub fn append_right_aligned(text: &mut String, n: usize, width: usize)
    ensures
        final(text)@ == old(text)@ + right_aligned(n as nat, width as nat),
{
    let digits = printable_base10_digits(n) as usize;
    let mut written: usize = digits;
    while written < width
        invariant
            digits <= written,
            written <= width || written == digits,
            text@ == old(text)@ + spaces((written - digits) as nat),
        decreases width - written,
    {
        proof {
            reveal_strlit(" ");
        }
        text.append(" ");
        written += 1;
        assert(text@ =~= old(text)@ + spaces((written - digits) as nat));
    }
    append_decimal(text, n);
    assert(text@ =~= old(text)@ + right_aligned(n as nat, width as nat));
}

/// Builds [`chunks_prefix`].
pub fn compose_chunks_prefix(done: u32, total: u32) -> (prefix: String)
    ensures
        prefix@ == chunks_prefix(done, total),
{
    let mut prefix = String::from_str("[");
    append_decimal(&mut prefix, done as usize);
    prefix.append("/");
    append_decimal(&mut prefix, total as usize);
    prefix.append(" Chunks] ");
    prefix
}

/// No bars yet, and no audio size.
pub fn no_bars() -> (bars: ProgressBars)
    ensures
        bars@.bar is None,
        bars@.multi is None,
        bars@.audio_bytes is None,
        bars@.wf(),
{
    ProgressBars { bar: None, multi: None, audio_bytes: None }
}

/// Notes the size of the audio track. The first size noted stays.
pub fn set_audio_size(bars: &mut ProgressBars, val: u64)
    ensures
        final(bars)@ == (ProgressModel {
            audio_bytes: match old(bars)@.audio_bytes {
                Some(first) => Some(first),
                None => Some(val),
            },
            ..old(bars)@
        }),
{
    if bars.audio_bytes.is_none() {
        bars.audio_bytes = Some(val);
    }
}

/// The size of the audio track; zero while it is unknown.
pub fn get_audio_size(bars: &ProgressBars) -> (size: u64)
    ensures
        size == match bars@.audio_bytes {
            Some(bytes) => bytes,
            None => 0,
        },
{
    match bars.audio_bytes {
        Some(bytes) => bytes,
        None => 0,
    }
}

/// Sets up the total bar of the plain display, unless it exists, and starts
/// it over at zero. A bar for work of known length shows progress, one for
/// work of unknown length (`len` of zero) a spinner. With chunk counts
/// given, the text in front of the bar shows them.
pub fn init_progress_bar(
    bars: &mut ProgressBars,
    len: u64,
    resume_frames: u64,
    chunks: Option<(u32, u32)>,
)
    ensures
        final(bars)@.multi == old(bars)@.multi,
        final(bars)@.audio_bytes == old(bars)@.audio_bytes,
        final(bars)@.bar is Some,
        final(bars)@.bar.unwrap().position == 0,
        !final(bars)@.bar.unwrap().finished,
        final(bars)@.bar.unwrap().prefix == match chunks {
            Some((done, total)) => chunks_prefix(done, total),
            None => match old(bars)@.bar {
                Some(before) => before.prefix,
                None => Seq::empty(),
            },
        },
        final(bars)@.bar.unwrap().length == match old(bars)@.bar {
            Some(before) => before.length,
            None => len,
        },
        final(bars)@.bar.unwrap().message == match old(bars)@.bar {
            Some(before) => before.message,
            None => Seq::empty(),
        },
        final(bars)@.bar.unwrap().style == match old(bars)@.bar {
            Some(before) => before.style,
            None => if len > 0 {
                BarStyle::Progress { resume_frames }
            } else {
                BarStyle::Spinner { resume_frames }
            },
        },
{
    let mut bar = match bars.bar.take() {
        Some(bar) => bar,
        None => Bar {
            position: 0,
            length: len,
            prefix: String::new(),
            message: String::new(),
            style: if len > 0 {
                BarStyle::Progress { resume_frames }
            } else {
                BarStyle::Spinner { resume_frames }
            },
            finished: false,
        },
    };
    bar.position = 0;
    bar.finished = false;
    if let Some((done, total)) = chunks {
        bar.prefix = compose_chunks_prefix(done, total);
    }
    bars.bar = Some(bar);
}

/// Turns the total bar of the plain display into one that shows progress.
pub fn convert_to_progress(bars: &mut ProgressBars, resume_frames: u64)
    ensures
        final(bars)@ == match old(bars)@.bar {
            Some(bar) => old(bars)@.with_bar(
                BarModel { style: BarStyle::Progress { resume_frames }, ..bar },
            ),
            None => old(bars)@,
        },
{
    if let Some(mut bar) = bars.bar.take() {
        bar.style = BarStyle::Progress { resume_frames };
        bars.bar = Some(bar);
    }
}

/// Moves the total bar of the plain display forward.
pub fn inc_bar(bars: &mut ProgressBars, inc: u64)
    ensures
        final(bars)@ == match old(bars)@.bar {
            Some(bar) => old(bars)@.with_bar(bar.advanced(inc)),
            None => old(bars)@,
        },
{
    if let Some(mut bar) = bars.bar.take() {
        bar.position = bar.position.wrapping_add(inc);
        bars.bar = Some(bar);
    }
}

/// Moves the total bars of both displays back, none below zero.
pub fn dec_bar(bars: &mut ProgressBars, dec: u64)
    requires
        old(bars)@.wf(),
    ensures
        final(bars)@.wf(),
        final(bars)@.audio_bytes == old(bars)@.audio_bytes,
        final(bars)@.bar == match old(bars)@.bar {
            Some(bar) => Some(bar.rewound(dec)),
            None => None,
        },
        final(bars)@.multi == match old(bars)@.multi {
            Some(all) => Some(all.update(all.len() - 1, all.last().rewound(dec))),
            None => None,
        },
{
    if let Some(mut bar) = bars.bar.take() {
        bar.position = if bar.position >= dec {
            bar.position - dec
        } else {
            0
        };
        bars.bar = Some(bar);
    }
    if let Some(mut all) = bars.multi.take() {
        let ghost before = all@;
        let at = all.len() - 1;
        let mut bar = all.remove(at);
        bar.position = if bar.position >= dec {
            bar.position - dec
        } else {
            0
        };
        all.insert(at, bar);
        assert(bar_models(all@) =~= bar_models(before).update(
            before.len() - 1,
            bar_models(before).last().rewound(dec),
        ));
        bars.multi = Some(all);
    }
}

/// Sets the text behind the total bar of the plain display and, with chunk
/// counts given, the text in front of it.
pub fn update_bar_info(bars: &mut ProgressBars, message: String, chunks: Option<(u32, u32)>)
    ensures
        final(bars)@ == match old(bars)@.bar {
            Some(bar) => old(bars)@.with_bar(
                BarModel {
                    message: message@,
                    prefix: match chunks {
                        Some((done, total)) => chunks_prefix(done, total),
                        None => bar.prefix,
                    },
                    ..bar
                },
            ),
            None => old(bars)@,
        },
{
    if let Some(mut bar) = bars.bar.take() {
        bar.message = message;
        if let Some((done, total)) = chunks {
            bar.prefix = compose_chunks_prefix(done, total);
        }
        bars.bar = Some(bar);
    }
}

/// Puts the total bar of the plain display at a position.
pub fn set_pos(bars: &mut ProgressBars, pos: u64)
    ensures
        final(bars)@ == match old(bars)@.bar {
            Some(bar) => old(bars)@.with_bar(BarModel { position: pos, ..bar }),
            None => old(bars)@,
        },
{
    if let Some(mut bar) = bars.bar.take() {
        bar.position = pos;
        bars.bar = Some(bar);
    }
}

/// Finishes every bar there is.
pub fn finish_progress_bar(bars: &mut ProgressBars)
    ensures
        final(bars)@.audio_bytes == old(bars)@.audio_bytes,
        final(bars)@.bar == match old(bars)@.bar {
            Some(bar) => Some(BarModel { finished: true, ..bar }),
            None => None,
        },
        final(bars)@.multi == match old(bars)@.multi {
            Some(all) => Some(Seq::new(all.len(), |i: int| BarModel { finished: true, ..all[i] })),
            None => None,
        },
{
    if let Some(mut bar) = bars.bar.take() {
        bar.finished = true;
        bars.bar = Some(bar);
    }
    if let Some(mut all) = bars.multi.take() {
        let ghost before = all@;
        let mut i: usize = 0;
        while i < all.len()
            invariant
                i <= all.len(),
                all@.len() == before.len(),
                forall|j: int| 0 <= j < i ==> (#[trigger] all@[j])@ == (BarModel { finished: true, ..before[j]@ }),
                forall|j: int| i <= j < all@.len() ==> (#[trigger] all@[j]) == before[j],
            decreases all.len() - i,
        {
            let mut bar = all.remove(i);
            bar.finished = true;
            all.insert(i, bar);
            i += 1;
        }
        assert(bar_models(all@) =~= Seq::new(
            before.len(),
            |i: int| BarModel { finished: true, ..bar_models(before)[i] },
        ));
        bars.multi = Some(all);
    }
}

/// Sets the length of the total bar of the plain display, which has to
/// exist.
pub fn set_len(bars: &mut ProgressBars, len: u64)
    requires
        old(bars)@.bar is Some,
    ensures
        final(bars)@ == old(bars)@.with_bar(BarModel { length: len, ..old(bars)@.bar.unwrap() }),
{
    if let Some(mut bar) = bars.bar.take() {
        bar.length = len;
        bars.bar = Some(bar);
    }
}

/// Starts the total bar of the plain display over at a position.
pub fn reset_bar_at(bars: &mut ProgressBars, pos: u64)
    ensures
        final(bars)@ == match old(bars)@.bar {
            Some(bar) => old(bars)@.with_bar(bar.reset_at(pos)),
            None => old(bars)@,
        },
{
    if let Some(mut bar) = bars.bar.take() {
        bar.position = pos;
        bar.finished = false;
        bars.bar = Some(bar);
    }
}

/// Starts the total bar of the detailed display over at a position.
pub fn reset_mp_bar_at(bars: &mut ProgressBars, pos: u64)
    ensures
        final(bars)@ == match old(bars)@.multi {
            Some(all) => if all.len() > 0 {
                old(bars)@.with_multi(all.len() - 1, all.last().reset_at(pos))
            } else {
                old(bars)@
            },
            None => old(bars)@,
        },
{
    if let Some(mut all) = bars.multi.take() {
        let ghost before = all@;
        if all.len() > 0 {
            let at = all.len() - 1;
            let mut bar = all.remove(at);
            bar.position = pos;
            bar.finished = false;
            all.insert(at, bar);
            assert(bar_models(all@) =~= bar_models(before).update(
                before.len() - 1,
                bar_models(before).last().reset_at(pos),
            ));
        } else {
            assert(bar_models(all@) =~= bar_models(before));
        }
        bars.multi = Some(all);
    }
}

/// Sets up the detailed display, unless it exists: one idle bar per worker
/// and, last, the total bar of `len` frames with the chunk counts in front
/// of it.
pub fn init_multi_progress_bar(
    bars: &mut ProgressBars,
    len: u64,
    workers: usize,
    resume_frames: u64,
    chunks: (u32, u32),
)
    requires
        old(bars)@.wf(),
    ensures
        final(bars)@.wf(),
        final(bars)@.bar == old(bars)@.bar,
        final(bars)@.audio_bytes == old(bars)@.audio_bytes,
        old(bars)@.multi is Some ==> final(bars)@.multi == old(bars)@.multi,
        old(bars)@.multi is None ==> final(bars)@.multi is Some,
        old(bars)@.multi is None ==> final(bars)@.multi.unwrap().len() == workers + 1,
        old(bars)@.multi is None ==> final(bars)@.multi.unwrap().last() == (BarModel {
            position: 0,
            length: len,
            prefix: chunks_prefix(chunks.0, chunks.1),
            message: Seq::empty(),
            style: BarStyle::Progress { resume_frames },
            finished: false,
        }),
        old(bars)@.multi is None ==> forall|i: int|
            0 <= i < workers ==> #[trigger] final(bars)@.multi.unwrap()[i] == (BarModel {
                position: 0,
                length: 0,
                prefix: idle_prefix(decimal_text(chunks.1 as nat).len()),
                message: Seq::empty(),
                style: BarStyle::Worker,
                finished: false,
            }),
{
    if bars.multi.is_some() {
        return ;
    }
    let digits = printable_base10_digits(chunks.1 as usize) as usize;
    let mut all: Vec<Bar> = Vec::new();
    let mut i: usize = 0;
    while i < workers
        invariant
            i <= workers,
            all@.len() == i,
            digits == decimal_text(chunks.1 as nat).len(),
            forall|j: int|
                0 <= j < i ==> (#[trigger] all@[j])@ == (BarModel {
                    position: 0,
                    length: 0,
                    prefix: idle_prefix(digits as nat),
                    message: Seq::empty(),
                    style: BarStyle::Worker,
                    finished: false,
                }),
        decreases workers - i,
    {
        let mut prefix = String::from_str("[Idle  ");
        append_right_aligned(&mut prefix, digits, digits);
        prefix.append("]");
        all.push(
            Bar {
                position: 0,
                length: 0,
                prefix,
                message: String::new(),
                style: BarStyle::Worker,
                finished: false,
            },
        );
        i += 1;
    }
    all.push(
        Bar {
            position: 0,
            length: len,
            prefix: compose_chunks_prefix(chunks.0, chunks.1),
            message: String::new(),
            style: BarStyle::Progress { resume_frames },
            finished: false,
        },
    );
    bars.multi = Some(all);
}

/// Shows on a worker's bar which chunk the worker has.
pub fn update_mp_chunk(bars: &mut ProgressBars, worker_idx: usize, chunk: usize, padding: usize)
    requires
        old(bars)@.multi matches Some(all) ==> worker_idx < all.len(),
    ensures
        final(bars)@ == match old(bars)@.multi {
            Some(all) => old(bars)@.with_multi(
                worker_idx as int,
                BarModel {
                    prefix: chunk_prefix(chunk as nat, padding as nat),
                    ..all[worker_idx as int]
                },
            ),
            None => old(bars)@,
        },
{
    if let Some(mut all) = bars.multi.take() {
        let ghost before = all@;
        let mut bar = all.remove(worker_idx);
        let mut prefix = String::from_str("[Chunk ");
        append_right_aligned(&mut prefix, chunk, padding);
        prefix.append("]");
        bar.prefix = prefix;
        all.insert(worker_idx, bar);
        assert(bar_models(all@) =~= bar_models(before).update(
            worker_idx as int,
            BarModel {
                prefix: chunk_prefix(chunk as nat, padding as nat),
                ..bar_models(before)[worker_idx as int]
            },
        ));
        bars.multi = Some(all);
    }
}

/// Shows a message on a worker's bar.
pub fn update_mp_msg(bars: &mut ProgressBars, worker_idx: usize, msg: String)
    requires
        old(bars)@.multi matches Some(all) ==> worker_idx < all.len(),
    ensures
        final(bars)@ == match old(bars)@.multi {
            Some(all) => old(bars)@.with_multi(
                worker_idx as int,
                BarModel { message: msg@, ..all[worker_idx as int] },
            ),
            None => old(bars)@,
        },
{
    if let Some(mut all) = bars.multi.take() {
        let ghost before = all@;
        let mut bar = all.remove(worker_idx);
        bar.message = msg;
        all.insert(worker_idx, bar);
        assert(bar_models(all@) =~= bar_models(before).update(
            worker_idx as int,
            BarModel { message: msg@, ..bar_models(before)[worker_idx as int] },
        ));
        bars.multi = Some(all);
    }
}

/// Moves the total bar of the detailed display forward.
pub fn inc_mp_bar(bars: &mut ProgressBars, inc: u64)
    requires
        old(bars)@.wf(),
    ensures
        final(bars)@.wf(),
        final(bars)@ == match old(bars)@.multi {
            Some(all) => old(bars)@.with_multi(all.len() - 1, all.last().advanced(inc)),
            None => old(bars)@,
        },
{
    if let Some(mut all) = bars.multi.take() {
        let ghost before = all@;
        let at = all.len() - 1;
        let mut bar = all.remove(at);
        bar.position = bar.position.wrapping_add(inc);
        all.insert(at, bar);
        assert(bar_models(all@) =~= bar_models(before).update(
            before.len() - 1,
            bar_models(before).last().advanced(inc),
        ));
        bars.multi = Some(all);
    }
}

/// Sets the text behind the total bar of the detailed display, and the chunk
/// counts in front of it.
pub fn update_mp_bar_info(bars: &mut ProgressBars, message: String, chunks: (u32, u32))
    requires
        old(bars)@.wf(),
    ensures
        final(bars)@.wf(),
        final(bars)@ == match old(bars)@.multi {
            Some(all) => old(bars)@.with_multi(
                all.len() - 1,
                BarModel {
                    message: message@,
                    prefix: chunks_prefix(chunks.0, chunks.1),
                    ..all.last()
                },
            ),
            None => old(bars)@,
        },
{
    if let Some(mut all) = bars.multi.take() {
        let ghost before = all@;
        let at = all.len() - 1;
        let mut bar = all.remove(at);
        bar.message = message;
        bar.prefix = compose_chunks_prefix(chunks.0, chunks.1);
        all.insert(at, bar);
        assert(bar_models(all@) =~= bar_models(before).update(
            before.len() - 1,
            BarModel {
                message: message@,
                prefix: chunks_prefix(chunks.0, chunks.1),
                ..bar_models(before).last()
            },
        ));
        bars.multi = Some(all);
    }
}

/// A size in bytes the way it is shown to people, as `indicatif::HumanBytes`
/// prints it.
pub uninterp spec fn human_bytes(bytes: u64) -> Seq<char>;

/// Words a size in bytes for people.
///
/// Prints an `indicatif::HumanBytes`, which picks a binary unit for the
/// number and prints it with two decimals. The text depends on the number
/// alone. The contract gives it the name [`human_bytes`] and says nothing of
/// what it holds.
#[verifier::external_body]
fn format_bytes(bytes: u64) -> (text: String)
    ensures
        text@ == human_bytes(bytes),
{
    format!("{}", indicatif::HumanBytes(bytes))
}

/// What a run is expected to come to.
#[derive(Debug, Clone, Copy, PartialEq, Eq, Structural)]
pub struct Estimates {
    /// Bits per second of video in what is encoded so far.
    pub bits_per_second: u64,
    /// Expected size of the whole result in bytes.
    pub estimated_size: u64,
}

/// A number, or the highest number that fits into 64 bits where it is beyond
/// that.
pub open spec fn clipped(value: int) -> u64 {
    if value > u64::MAX {
        u64::MAX
    } else {
        value as u64
    }
}

/// Bits per second of video: the bits of the encoded chunks, over the time
/// that their frames take at the frame rate.
pub open spec fn bit_rate(total_size: u64, completed_frames: usize, rate: FrameRate) -> u64 {
    if rate.denominator == 0 {
        u64::MAX
    } else {
        clipped((total_size * 8 * rate.numerator) / (completed_frames * rate.denominator))
    }
}

/// Expected size of the whole result: the size of the encoded chunks scaled
/// up from the frames encoded to all frames, plus the audio track.
pub open spec fn expected_size(
    total_size: u64,
    completed_frames: usize,
    total_frames: usize,
    audio_bytes: u64,
) -> u64 {
    clipped((total_size * total_frames) / (completed_frames as int) + audio_bytes)
}

/// Works out what a run is expected to come to from the chunks encoded so
/// far. There is nothing to go by before a frame is encoded.
pub fn estimate(
    total_size: u64,
    completed_frames: usize,
    total_frames: usize,
    audio_bytes: u64,
    rate: FrameRate,
) -> (estimates: Option<Estimates>)
    ensures
        estimates == if completed_frames == 0 {
            None
        } else {
            Some(
                Estimates {
                    bits_per_second: bit_rate(total_size, completed_frames, rate),
                    estimated_size: expected_size(
                        total_size,
                        completed_frames,
                        total_frames,
                        audio_bytes,
                    ),
                },
            )
        },
{
    if completed_frames == 0 {
        return None;
    }
    let bits_per_second: u64 = if rate.denominator == 0 {
        u64::MAX
    } else {
        assert(total_size * 8 * rate.numerator <= 0xffff_ffff_ffff_ffff * 8 * 0xffff_ffff)
            by (nonlinear_arith)
            requires
                0 <= total_size <= 0xffff_ffff_ffff_ffff,
                0 <= rate.numerator <= 0xffff_ffff,
        ;
        assert(0 < completed_frames * rate.denominator <= 0xffff_ffff_ffff_ffff * 0xffff_ffff)
            by (nonlinear_arith)
            requires
                0 < completed_frames <= 0xffff_ffff_ffff_ffff,
                0 < rate.denominator <= 0xffff_ffff,
        ;
        let bits: u128 = total_size as u128 * 8 * rate.numerator as u128;
        let time: u128 = completed_frames as u128 * rate.denominator as u128;
        let per_second: u128 = bits / time;
        if per_second > u64::MAX as u128 {
            u64::MAX
        } else {
            per_second as u64
        }
    };
    assert(total_size * total_frames <= 0xffff_ffff_ffff_ffff * 0xffff_ffff_ffff_ffff)
        by (nonlinear_arith)
        requires
            0 <= total_size <= 0xffff_ffff_ffff_ffff,
            0 <= total_frames <= 0xffff_ffff_ffff_ffff,
    ;
    let scaled: u128 = (total_size as u128 * total_frames as u128) / (completed_frames as u128);
    assert(scaled <= total_size as u128 * total_frames as u128) by {
        vstd::arithmetic::div_mod::lemma_div_is_ordered_by_denominator(
            total_size * total_frames,
            1,
            completed_frames as int,
        );
        vstd::arithmetic::div_mod::lemma_div_basics(total_size * total_frames);
    }
    let whole: u128 = scaled + audio_bytes as u128;
    let estimated_size: u64 = if whole > u64::MAX as u128 {
        u64::MAX
    } else {
        whole as u64
    };
    Some(Estimates { bits_per_second, estimated_size })
}

/// A bit rate in thousands of bits per second, rounded to one decimal.
pub open spec fn kbps_text(bits_per_second: u64) -> Seq<char> {
    decimal_text(((bits_per_second + 50) / 100 / 10) as nat) + "."@ + seq![
        digit_char((bits_per_second + 50) / 100 % 10),
    ]
}

/// The text behind a total bar: the bit rate, and the expected size as it
/// was worded.
pub open spec fn rate_and_size(bits_per_second: u64, size: Seq<char>) -> Seq<char> {
    ", "@ + kbps_text(bits_per_second) + " Kbps, est. "@ + size
}

/// The text behind a total bar: bit rate and expected size.
pub open spec fn estimates_message(estimates: Estimates) -> Seq<char> {
    rate_and_size(estimates.bits_per_second, human_bytes(estimates.estimated_size))
}

/// Words a bit rate and an expected size, which is worded already, for the
/// text behind a total bar.
pub fn compose_rate_and_size(bits_per_second: u64, size: &str) -> (message: String)
    ensures
        message@ == rate_and_size(bits_per_second, size@),
{
    let tenths: u128 = (bits_per_second as u128 + 50) / 100;
    let mut message = String::from_str(", ");
    append_decimal_u64(&mut message, (tenths / 10) as u64);
    message.append(".");
    message.append(digit_str((tenths % 10) as u8));
    message.append(" Kbps, est. ");
    message.append(size);
    assert(message@ =~= rate_and_size(bits_per_second, size@));
    message
}

/// Words the estimates for the text behind a total bar.
pub fn compose_estimates_message(estimates: Estimates) -> (message: String)
    ensures
        message@ == estimates_message(estimates),
{
    let size = format_bytes(estimates.estimated_size);
    compose_rate_and_size(estimates.bits_per_second, size.as_str())
}

/// The frames of the ledger's chunks, as far as they can be counted.
pub open spec fn counted_frames(ledger: &DoneLedger) -> usize {
    if frames_sum(ledger.done@) <= usize::MAX {
        frames_sum(ledger.done@) as usize
    } else {
        usize::MAX
    }
}

/// The bytes of the ledger's chunks, as far as they can be counted.
pub open spec fn counted_bytes(ledger: &DoneLedger) -> u64 {
    if bytes_sum(ledger.done@) <= u64::MAX {
        bytes_sum(ledger.done@) as u64
    } else {
        u64::MAX
    }
}

/// Shows what the run is expected to come to, on the total bar of the
/// display in use: bit rate and expected size behind the bar, the chunk
/// counts in front of it. Before a frame is encoded, and in a quiet run,
/// nothing is shown.
pub fn update_progress_bar_estimates(
    bars: &mut ProgressBars,
    ledger: &DoneLedger,
    frame_rate: FrameRate,
    total_frames: usize,
    verbosity: Verbosity,
    chunks: (u32, u32),
) -> (estimates: Option<Estimates>)
    requires
        old(bars)@.wf(),
    ensures
        final(bars)@.wf(),
        estimates == if counted_frames(ledger) == 0 {
            None
        } else {
            Some(
                Estimates {
                    bits_per_second: bit_rate(
                        counted_bytes(ledger),
                        counted_frames(ledger),
                        frame_rate,
                    ),
                    estimated_size: expected_size(
                        counted_bytes(ledger),
                        counted_frames(ledger),
                        total_frames,
                        match old(bars)@.audio_bytes {
                            Some(bytes) => bytes,
                            None => 0,
                        },
                    ),
                },
            )
        },
        final(bars)@ == match estimates {
            None => old(bars)@,
            Some(found) => match verbosity {
                Verbosity::Quiet => old(bars)@,
                Verbosity::Normal => match old(bars)@.bar {
                    Some(bar) => old(bars)@.with_bar(
                        BarModel {
                            message: estimates_message(found),
                            prefix: chunks_prefix(chunks.0, chunks.1),
                            ..bar
                        },
                    ),
                    None => old(bars)@,
                },
                Verbosity::Verbose => match old(bars)@.multi {
                    Some(all) => old(bars)@.with_multi(
                        all.len() - 1,
                        BarModel {
                            message: estimates_message(found),
                            prefix: chunks_prefix(chunks.0, chunks.1),
                            ..all.last()
                        },
                    ),
                    None => old(bars)@,
                },
            },
        },
{
    let completed_frames = ledger.completed_frames();
    let total_size = ledger.completed_bytes();
    let audio_bytes = get_audio_size(bars);
    let estimates = estimate(total_size, completed_frames, total_frames, audio_bytes, frame_rate);
    match estimates {
        None => {},
        Some(found) => match verbosity {
            Verbosity::Quiet => {},
            Verbosity::Normal => {
                update_bar_info(bars, compose_estimates_message(found), Some(chunks));
            },
            Verbosity::Verbose => {
                update_mp_bar_info(bars, compose_estimates_message(found), chunks);
            },
        },
    }
    estimates
}

/// Frames that count for the rate of a run that was taken up again: the
/// frames done since then. While the bar stands before the frames that were
/// done already, those count.
pub fn frames_since_resume(position: u64, resume_frames: u64) -> (frames: u64)
    ensures
        frames == if position < resume_frames {
            resume_frames as int
        } else {
            position - resume_frames
        },
{
    if position < resume_frames {
        resume_frames
    } else {
        position - resume_frames
    }
}

/// Frames that are left to do; none for a bar that stands beyond its length.
pub fn frames_left(length: u64, position: u64) -> (left: u64)
    ensures
        left == if length >= position {
            length - position
        } else {
            0
        },
{
    if length >= position {
        length - position
    } else {
        0
    }
}

/// The position of a bar as text: `<position>/<length>`.
pub open spec fn position_text(position: u64, length: u64) -> Seq<char> {
    decimal_text(position as nat) + "/"@ + decimal_text(length as nat)
}

/// Words the position of a bar.
pub fn compose_position(position: u64, length: u64) -> (text: String)
    ensures
        text@ == position_text(position, length),
{
    let mut text = String::new();
    append_decimal_u64(&mut text, position);
    text.append("/");
    append_decimal_u64(&mut text, length);
    assert(text@ =~= position_text(position, length));
    text
}

} // verus!
