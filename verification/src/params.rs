//! Reading the settings that come as one line of text: encoder arguments,
//! the scaler, and what follows from flags.

use vstd::prelude::*;
use crate::chunk::{clone_texts, push_text, FrameRate};
use crate::settings::Verbosity;

verus! {

/// The words that a line of shell-like text splits into, as
/// `shlex::split` finds them; `None` for a line that it cannot split, such as
/// one with a quote that is not closed.
pub uninterp spec fn shell_words(text: Seq<char>) -> Option<Seq<Seq<char>>>;

/// Splits a line into words the way a shell does.
///
/// Calls `shlex::split`, which works on the line alone: the same line always
/// gives the same words. The contract gives its result the name
/// [`shell_words`] and says nothing of what the words are.
#[verifier::external_body]
fn split_words(text: &str) -> (words: Option<Vec<String>>)
    ensures
        words is Some <==> shell_words(text@) is Some,
        words matches Some(list) ==> shell_words(text@) == Some(list.deep_view()),
{
    shlex::split(text)
}

/// The settings that are split into words.
#[derive(Debug, Clone, Copy, PartialEq, Eq, Structural)]
pub enum ParamKind {
    /// Arguments for the encoder.
    Video,
    /// Arguments for the pixel-format converter.
    Filter,
    /// Arguments for the audio encoder.
    Audio,
}

/// A setting could not be split into words.
#[derive(Debug, Clone, Copy, PartialEq, Eq, Structural)]
pub struct ParamsError {
    pub kind: ParamKind,
}

/// The words of a setting, given what splitting its line came to.
pub fn words_or_fault(found: Option<Vec<String>>, kind: ParamKind) -> (result: Result<
    Vec<String>,
    ParamsError,
>)
    ensures
        match found {
            Some(words) => result == Ok::<Vec<String>, ParamsError>(words),
            None => result == Err::<Vec<String>, ParamsError>(ParamsError { kind }),
        },
{
    match found {
        Some(words) => Ok(words),
        None => Err(ParamsError { kind }),
    }
}

/// The words of a setting: none where the setting was not given, else the
/// words that its line splits into. A line that cannot be split is a fault.
pub fn split_params(text: Option<&String>, kind: ParamKind) -> (result: Result<
    Vec<String>,
    ParamsError,
>)
    ensures
        match text {
            None => result is Ok && result.unwrap().deep_view() == Seq::<Seq<char>>::empty(),
            Some(line) => match shell_words(line@) {
                Some(words) => result is Ok && result.unwrap().deep_view() == words,
                None => result == Err::<Vec<String>, ParamsError>(ParamsError { kind }),
            },
        },
{
    match text {
        None => {
            let words: Vec<String> = Vec::new();
            assert(words.deep_view() =~= Seq::<Seq<char>>::empty());
            Ok(words)
        },
        Some(line) => words_or_fault(split_words(line.as_str()), kind),
    }
}

/// The arguments for the audio encoder: those given, or `-c:a copy` where
/// none were given.
pub fn audio_params(text: Option<&String>) -> (result: Result<Vec<String>, ParamsError>)
    ensures
        match text {
            None => result is Ok && result.unwrap().deep_view() == seq!["-c:a"@, "copy"@],
            Some(line) => match shell_words(line@) {
                Some(words) => result is Ok && result.unwrap().deep_view() == words,
                None => result == Err::<Vec<String>, ParamsError>(
                    ParamsError { kind: ParamKind::Audio },
                ),
            },
        },
{
    match text {
        None => {
            let mut words: Vec<String> = Vec::new();
            assert(words.deep_view() =~= Seq::<Seq<char>>::empty());
            push_text(&mut words, "-c:a");
            push_text(&mut words, "copy");
            assert(words.deep_view() =~= seq!["-c:a"@, "copy"@]);
            Ok(words)
        },
        Some(line) => words_or_fault(split_words(line.as_str()), ParamKind::Audio),
    }
}

/// The encoder arguments for probes, and whether they are a copy of the
/// arguments for the encode, given what splitting the setting's line came
/// to. The line `copy` asks for the copy. A line that could not be split
/// leaves the probes without arguments of their own.
pub fn probe_params_from(
    text: Option<&String>,
    found: Option<Vec<String>>,
    video_params: &Vec<String>,
) -> (result: (Option<Vec<String>>, bool))
    ensures
        match text {
            None => result.0 is None && !result.1,
            Some(line) => if line@ == "copy"@ {
                result.0 is Some && result.0.unwrap().deep_view() == video_params.deep_view()
                    && result.1
            } else {
                result.0 == found && !result.1
            },
        },
{
    match text {
        None => (None, false),
        Some(line) => {
            if *line == String::from_str("copy") {
                (Some(clone_texts(video_params)), true)
            } else {
                (found, false)
            }
        },
    }
}

/// The encoder arguments for probes, and whether they are a copy of the
/// arguments for the encode.
pub fn probe_params(text: Option<&String>, video_params: &Vec<String>) -> (result: (
    Option<Vec<String>>,
    bool,
))
    ensures
        match text {
            None => result.0 is None && !result.1,
            Some(line) => if line@ == "copy"@ {
                result.0 is Some && result.0.unwrap().deep_view() == video_params.deep_view()
                    && result.1
            } else {
                !result.1 && match shell_words(line@) {
                    Some(words) => result.0 is Some && result.0.unwrap().deep_view() == words,
                    None => result.0 is None,
                }
            },
        },
{
    match text {
        None => (None, false),
        Some(line) => {
            let found = split_words(line.as_str());
            probe_params_from(text, found, video_params)
        },
    }
}

/// How much a run shows of itself: nothing much when asked to be quiet, all
/// when asked to be verbose, and else the usual.
pub fn verbosity_of(quiet: bool, verbose: bool) -> (verbosity: Verbosity)
    ensures
        verbosity == if quiet {
            Verbosity::Quiet
        } else if verbose {
            Verbosity::Verbose
        } else {
            Verbosity::Normal
        },
{
    if quiet {
        Verbosity::Quiet
    } else if verbose {
        Verbosity::Verbose
    } else {
        Verbosity::Normal
    }
}

/// The cap on the length of a scene: a cap of zero is no cap, a cap given is
/// kept, and without one the default is taken.
pub fn extra_split_len(extra_split: Option<usize>, default_len: usize) -> (cap: Option<usize>)
    ensures
        cap == match extra_split {
            Some(given) => if given == 0 {
                None
            } else {
                Some(given)
            },
            None => Some(default_len),
        },
{
    match extra_split {
        Some(given) => if given == 0 {
            None
        } else {
            Some(given)
        },
        None => Some(default_len),
    }
}

/// Number of whole frames that are shown within a time, at a frame rate;
/// the highest number there is for a frame rate without a denominator and
/// for a count beyond it.
pub open spec fn frames_within_spec(rate: FrameRate, millis: u64) -> int {
    if rate.denominator == 0 || (rate.numerator * millis) / (rate.denominator * 1000)
        > usize::MAX {
        usize::MAX as int
    } else {
        (rate.numerator * millis) / (rate.denominator * 1000)
    }
}

/// Counts the whole frames that are shown within a time, given in
/// thousandths of a second, at a frame rate.
pub fn frames_within(rate: FrameRate, millis: u64) -> (frames: usize)
    ensures
        frames == frames_within_spec(rate, millis),
{
    if rate.denominator == 0 {
        return usize::MAX;
    }
    assert(rate.numerator * millis <= 0xffff_ffff * 0xffff_ffff_ffff_ffff) by (nonlinear_arith)
        requires
            0 <= rate.numerator <= 0xffff_ffff,
            0 <= millis <= 0xffff_ffff_ffff_ffff,
    ;
    let shown: u128 = (rate.numerator as u128 * millis as u128) / (rate.denominator as u128 * 1000);
    if shown > usize::MAX as u128 {
        usize::MAX
    } else {
        shown as usize
    }
}

/// What is added to every scaler.
pub open spec fn scaler_flags() -> Seq<char> {
    "+accurate_rnd+full_chroma_int+full_chroma_inp+bitexact"@
}

/// Whether a text starts with `lanczos` and ends with a digit from 1 to 9.
pub open spec fn is_numbered_lanczos(scaler: Seq<char>) -> bool {
    &&& scaler.len() >= 7
    &&& scaler.take(7) == "lanczos"@
    &&& 0x31 <= scaler.last() as u32 <= 0x39
}

/// The scaler with its flags. A `lanczos` scaler with a number from 1 to 9
/// at its end becomes plain `lanczos` with the number as its parameter.
pub open spec fn scaler_with_flags(scaler: Seq<char>) -> Seq<char> {
    if is_numbered_lanczos(scaler) {
        "lanczos"@ + scaler_flags() + ":param0="@ + seq![scaler.last()]
    } else {
        scaler + scaler_flags()
    }
}

/// Completes the scaler with its flags.
pub fn compose_scaler(scaler: &str) -> (full: String)
    ensures
        full@ == scaler_with_flags(scaler@),
{
    proof {
        reveal_strlit("lanczos");
    }
    let len = scaler.unicode_len();
    let mut numbered = len >= 7;
    if numbered {
        let head = scaler.substring_char(0, 7);
        assert(head@ =~= scaler@.take(7));
        let name = "lanczos";
        let mut i: usize = 0;
        while i < 7
            invariant
                i <= 7,
                head@.len() == 7,
                name@ == "lanczos"@,
                name@.len() == 7,
                numbered ==> forall|j: int| 0 <= j < i ==> #[trigger] head@[j] == name@[j],
                !numbered ==> head@ != name@,
            decreases 7 - i,
        {
            if head.get_char(i) != name.get_char(i) {
                numbered = false;
            }
            i += 1;
        }
        if numbered {
            assert(head@ =~= name@);
        }
    }
    if numbered {
        let last = scaler.get_char(len - 1);
        let code = last as u32;
        if 0x31 <= code && code <= 0x39 {
            let mut full = String::from_str("lanczos");
            full.append("+accurate_rnd+full_chroma_int+full_chroma_inp+bitexact");
            full.append(":param0=");
            let digit = scaler.substring_char(len - 1, len);
            assert(digit@ =~= seq![scaler@.last()]);
            full.append(digit);
            return full;
        }
    }
    let mut full = String::from_str(scaler);
    full.append("+accurate_rnd+full_chroma_int+full_chroma_inp+bitexact");
    full
}

} // verus!
