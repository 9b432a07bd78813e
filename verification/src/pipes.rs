//! The encoder pipeline of a chunk: which programs run and how they are
//! wired, which pass runs, and what is made of the encoder's output.

use vstd::prelude::*;
use vstd::utf8::{decode_utf8, valid_utf8};
use crate::broker::AttemptResult;
use crate::chunk::{chunk_name, push_string, push_text, push_texts};
use crate::settings::Verbosity;
use crate::util::{append_decimal, append_padded_decimal, decimal_text};

verus! {

/// Where a stream of a child process goes to or comes from.
#[derive(Debug, Clone, Copy, PartialEq, Eq, Structural)]
pub enum Stdio {
    /// The stream of the parent.
    Inherit,
    /// Nowhere.
    Null,
    /// A pipe that the parent or the next stage reads.
    Capture,
    /// The standard output of the stage before.
    PipeFromPrevious,
}

/// A program to run: its arguments, and where its streams go.
#[derive(Debug, PartialEq, Eq)]
pub struct CommandDescriptor {
    pub program: String,
    pub args: Vec<String>,
    pub stdin: Stdio,
    pub stdout: Stdio,
    pub stderr: Stdio,
}

/// A [`CommandDescriptor`] as plain values.
pub struct CommandModel {
    pub program: Seq<char>,
    pub args: Seq<Seq<char>>,
    pub stdin: Stdio,
    pub stdout: Stdio,
    pub stderr: Stdio,
}

impl View for CommandDescriptor {
    type V = CommandModel;

    open spec fn view(&self) -> CommandModel {
        CommandModel {
            program: self.program@,
            args: self.args.deep_view(),
            stdin: self.stdin,
            stdout: self.stdout,
            stderr: self.stderr,
        }
    }
}

/// The stage that a command line makes at a place in a pipeline: the first
/// stage reads nothing, every later stage reads what the stage before it
/// writes; all stages write into pipes.
pub open spec fn stage_of(argv: Seq<Seq<char>>, first: bool) -> CommandModel {
    CommandModel {
        program: argv[0],
        args: argv.skip(1),
        stdin: if first {
            Stdio::Null
        } else {
            Stdio::PipeFromPrevious
        },
        stdout: Stdio::Capture,
        stderr: Stdio::Capture,
    }
}

/// Whether the stages form a pipeline: there is a stage, and every stage but
/// the first reads what the stage before it writes.
pub open spec fn wired(stages: Seq<CommandModel>) -> bool {
    &&& stages.len() >= 1
    &&& stages[0].stdin != Stdio::PipeFromPrevious
    &&& forall|i: int| 1 <= i < stages.len() ==> (#[trigger] stages[i]).stdin == Stdio::PipeFromPrevious
    &&& forall|i: int| 0 <= i < stages.len() - 1 ==> (#[trigger] stages[i]).stdout == Stdio::Capture
}

/// The stages of a list as plain values.
pub open spec fn stage_models(stages: Seq<CommandDescriptor>) -> Seq<CommandModel> {
    Seq::new(stages.len(), |i: int| stages[i]@)
}

/// The command line of the source stage: the arguments for the frame server
/// follow the program, each behind `-a`, and the rest of the source command
/// follows them.
pub open spec fn source_argv(source_cmd: Seq<Seq<char>>, script_args: Seq<Seq<char>>) -> Seq<
    Seq<char>,
> {
    seq![source_cmd[0]] + script_arg_pairs(script_args) + source_cmd.skip(1)
}

/// Every argument for the frame server behind `-a`.
pub open spec fn script_arg_pairs(script_args: Seq<Seq<char>>) -> Seq<Seq<char>>
    decreases script_args.len(),
{
    if script_args.len() == 0 {
        Seq::empty()
    } else {
        script_arg_pairs(script_args.drop_last()).push("-a"@).push(script_args.last())
    }
}

/// The pipeline that encodes a chunk: the source, the pixel-format converter
/// where there is one, and the encoder.
pub open spec fn encode_stages(
    source_cmd: Seq<Seq<char>>,
    script_args: Seq<Seq<char>>,
    converter: Option<Seq<Seq<char>>>,
    encoder: Seq<Seq<char>>,
) -> Seq<CommandModel> {
    match converter {
        Some(convert) => seq![
            stage_of(source_argv(source_cmd, script_args), true),
            stage_of(convert, false),
            stage_of(encoder, false),
        ],
        None => seq![
            stage_of(source_argv(source_cmd, script_args), true),
            stage_of(encoder, false),
        ],
    }
}

/// Makes a stage of a command line that is not empty.
pub fn make_stage(argv: Vec<String>, first: bool) -> (stage: CommandDescriptor)
    requires
        argv@.len() >= 1,
    ensures
        stage@ == stage_of(argv.deep_view(), first),
{
    let mut args = argv;
    let ghost all = args.deep_view();
    let program = args.remove(0);
    assert(args.deep_view() =~= all.skip(1));
    CommandDescriptor {
        program,
        args,
        stdin: if first {
            Stdio::Null
        } else {
            Stdio::PipeFromPrevious
        },
        stdout: Stdio::Capture,
        stderr: Stdio::Capture,
    }
}

/// Builds [`source_argv`].
pub fn compose_source_argv(source_cmd: &Vec<String>, script_args: &Vec<String>) -> (argv: Vec<
    String,
>)
    requires
        source_cmd@.len() >= 1,
    ensures
        argv.deep_view() == source_argv(source_cmd.deep_view(), script_args.deep_view()),
        argv@.len() >= 1,
{
    let mut argv: Vec<String> = Vec::new();
    assert(argv.deep_view() =~= Seq::<Seq<char>>::empty());
    push_string(&mut argv, source_cmd[0].clone());
    let ghost head = argv.deep_view();
    assert(head =~= seq![source_cmd.deep_view()[0]]);
    let mut i: usize = 0;
    proof {
        assert(script_args.deep_view().take(0) =~= Seq::<Seq<char>>::empty());
        assert(argv.deep_view() =~= head + script_arg_pairs(script_args.deep_view().take(0)));
    }
    while i < script_args.len()
        invariant
            i <= script_args.len(),
            argv.deep_view() == head + script_arg_pairs(script_args.deep_view().take(i as int)),
        decreases script_args.len() - i,
    {
        push_text(&mut argv, "-a");
        push_string(&mut argv, script_args[i].clone());
        proof {
            let done = script_args.deep_view().take(i as int);
            let more = script_args.deep_view().take(i + 1);
            assert(more.drop_last() =~= done);
            assert(more.last() == script_args@[i as int]@);
            assert(argv.deep_view() =~= head + script_arg_pairs(more));
        }
        i += 1;
    }
    proof {
        assert(script_args.deep_view().take(script_args@.len() as int) =~= script_args.deep_view());
    }
    let mut rest: Vec<String> = Vec::new();
    let mut k: usize = 1;
    assert(rest.deep_view() =~= source_cmd.deep_view().subrange(1, 1));
    while k < source_cmd.len()
        invariant
            1 <= k <= source_cmd.len(),
            rest.deep_view() == source_cmd.deep_view().subrange(1, k as int),
        decreases source_cmd.len() - k,
    {
        push_string(&mut rest, source_cmd[k].clone());
        assert(rest.deep_view() =~= source_cmd.deep_view().subrange(1, k + 1));
        k += 1;
    }
    assert(source_cmd.deep_view().subrange(1, source_cmd@.len() as int)
        =~= source_cmd.deep_view().skip(1));
    push_texts(&mut argv, &rest);
    assert(argv.deep_view().len() >= 1);
    argv
}

/// Builds the pipeline that encodes a chunk. There is no pipeline with an
/// empty command line in it.
pub fn encode_pipeline(
    source_cmd: &Vec<String>,
    script_args: &Vec<String>,
    converter: Option<Vec<String>>,
    encoder: Vec<String>,
) -> (stages: Option<Vec<CommandDescriptor>>)
    ensures
        stages is Some <==> source_cmd@.len() >= 1 && encoder@.len() >= 1 && (
        converter matches Some(convert) ==> convert@.len() >= 1),
        stages matches Some(built) ==> stage_models(built@) == encode_stages(
            source_cmd.deep_view(),
            script_args.deep_view(),
            match converter {
                Some(convert) => Some(convert.deep_view()),
                None => None,
            },
            encoder.deep_view(),
        ) && wired(stage_models(built@)),
{
    if source_cmd.len() == 0 || encoder.len() == 0 {
        return None;
    }
    let mut stages: Vec<CommandDescriptor> = Vec::new();
    stages.push(make_stage(compose_source_argv(source_cmd, script_args), true));
    match converter {
        Some(convert) => {
            if convert.len() == 0 {
                return None;
            }
            stages.push(make_stage(convert, false));
            stages.push(make_stage(encoder, false));
            assert(stage_models(stages@) =~= encode_stages(
                source_cmd.deep_view(),
                script_args.deep_view(),
                Some(convert.deep_view()),
                encoder.deep_view(),
            ));
        },
        None => {
            stages.push(make_stage(encoder, false));
            assert(stage_models(stages@) =~= encode_stages(
                source_cmd.deep_view(),
                script_args.deep_view(),
                None,
                encoder.deep_view(),
            ));
        },
    }
    Some(stages)
}

/// Which encoder run a pass is.
#[derive(Debug, Clone, Copy, PartialEq, Eq, Structural)]
pub enum PassKind {
    /// The only pass of a one-pass encode.
    Single,
    /// The first pass of a two-pass encode, which writes statistics.
    FirstOfTwo,
    /// The second pass of a two-pass encode, which reads them.
    SecondOfTwo,
}

/// Which encoder run a pass is: with one pass the only one; else the first
/// pass writes statistics and every other pass reads them.
pub open spec fn pass_kind_spec(passes: u8, current_pass: u8) -> PassKind {
    if passes == 1 {
        PassKind::Single
    } else if current_pass == 1 {
        PassKind::FirstOfTwo
    } else {
        PassKind::SecondOfTwo
    }
}

/// Tells which encoder run a pass is.
pub fn pass_kind(passes: u8, current_pass: u8) -> (kind: PassKind)
    ensures
        kind == pass_kind_spec(passes, current_pass),
{
    if passes == 1 {
        PassKind::Single
    } else if current_pass == 1 {
        PassKind::FirstOfTwo
    } else {
        PassKind::SecondOfTwo
    }
}

/// The file that the first pass writes its statistics to:
/// `<temp>/split/<name>_fpf`.
pub open spec fn first_pass_file_spec(temp: Seq<char>, index: nat) -> Seq<char> {
    temp + "/split/"@ + chunk_name(index) + "_fpf"@
}

/// Names the file that the first pass writes its statistics to.
pub fn first_pass_file(temp: &str, index: usize) -> (path: String)
    ensures
        path@ == first_pass_file_spec(temp@, index as nat),
{
    let mut path = String::from_str(temp);
    path.append("/split/");
    append_padded_decimal(&mut path, index, crate::chunk::NAME_WIDTH);
    path.append("_fpf");
    path
}

/// Decodes bytes as UTF-8.
///
/// Calls `simdutf8::basic::from_utf8`, which checks whether the bytes are
/// valid UTF-8 and, if they are, hands them back as a text without changing
/// them. The contract says so: a text comes back exactly for valid bytes,
/// and it is the text that the bytes encode.
#[verifier::external_body]
fn decode_line(bytes: &Vec<u8>) -> (text: Option<String>)
    ensures
        text is Some <==> valid_utf8(bytes@),
        text matches Some(line) ==> line@ == decode_utf8(bytes@),
{
    match simdutf8::basic::from_utf8(bytes.as_slice()) {
        Ok(line) => Some(line.to_owned()),
        Err(_) => None,
    }
}

/// Takes a piece of the encoder's error stream. A piece that is valid UTF-8
/// is added to the log with a line break behind it, and comes back as text
/// for whoever reads progress out of it. Any other piece is dropped.
pub fn take_encoder_output(log: &mut String, bytes: &Vec<u8>) -> (line: Option<String>)
    ensures
        line is Some <==> valid_utf8(bytes@),
        match line {
            Some(text) => text@ == decode_utf8(bytes@) && final(log)@ == old(log)@ + text@
                + "\n"@,
            None => final(log)@ == old(log)@,
        },
{
    match decode_line(bytes) {
        Some(text) => {
            log.append(text.as_str());
            log.append("\n");
            Some(text)
        },
        None => None,
    }
}

/// Whether a text holds a line break.
pub open spec fn has_line_break(text: Seq<char>) -> bool {
    exists|i: int| 0 <= i < text.len() && #[trigger] text[i] == '\n'
}

/// Tells whether a line of encoder output is shown on the worker's bar: in
/// the detailed display, every line without a line break in it.
pub fn shows_on_worker_bar(verbosity: Verbosity, line: &str) -> (shown: bool)
    ensures
        shown == (verbosity is Verbose && !has_line_break(line@)),
{
    match verbosity {
        Verbosity::Verbose => {},
        _ => {
            return false;
        },
    }
    let len = line.unicode_len();
    let mut i: usize = 0;
    while i < len
        invariant
            i <= len,
            len == line@.len(),
            forall|j: int| 0 <= j < i ==> #[trigger] line@[j] != '\n',
        decreases len - i,
    {
        if line.get_char(i) == '\n' {
            return false;
        }
        i += 1;
    }
    true
}

/// What is reported of an encoder run that did not pass.
#[derive(Debug, PartialEq, Eq)]
pub struct EncoderCrash {
    /// Exit code of the encoder, where it ended with one.
    pub exit_code: Option<i32>,
    /// What the encoder wrote to standard output, or what is wrong with the
    /// frames it wrote.
    pub stdout: String,
    /// What the encoder wrote to its error stream.
    pub stderr: String,
    /// What the source stage wrote to its error stream.
    pub source_pipe_stderr: String,
    /// What the converter stage wrote to its error stream, where there was
    /// one.
    pub ffmpeg_pipe_stderr: Option<String>,
}

/// What is said of the frames of a run that did not pass: nothing for a
/// crash of the encoder, and else what went wrong with the frames.
pub open spec fn frames_note(result: AttemptResult, index: nat, reason: Seq<char>) -> Option<
    Seq<char>,
> {
    match result {
        AttemptResult::FrameMismatch { actual, expected } => Some(
            "FRAME MISMATCH: task "@ + decimal_text(index) + ": "@ + decimal_text(actual as nat)
                + "/"@ + decimal_text(expected as nat) + " (actual/expected frames)"@,
        ),
        AttemptResult::FramesUncounted => Some(
            "FAILED TO COUNT FRAMES: task "@ + decimal_text(index) + ": "@ + reason,
        ),
        _ => None,
    }
}

/// Words what went wrong with the frames of a run. `reason` is why the
/// frames could not be counted, and is only read for that fault.
pub fn compose_frames_note(result: AttemptResult, index: usize, reason: &str) -> (note: Option<
    String,
>)
    ensures
        match frames_note(result, index as nat, reason@) {
            Some(text) => note is Some && note.unwrap()@ == text,
            None => note is None,
        },
{
    match result {
        AttemptResult::FrameMismatch { actual, expected } => {
            let mut note = String::from_str("FRAME MISMATCH: task ");
            append_decimal(&mut note, index);
            note.append(": ");
            append_decimal(&mut note, actual);
            note.append("/");
            append_decimal(&mut note, expected);
            note.append(" (actual/expected frames)");
            Some(note)
        },
        AttemptResult::FramesUncounted => {
            let mut note = String::from_str("FAILED TO COUNT FRAMES: task ");
            append_decimal(&mut note, index);
            note.append(": ");
            note.append(reason);
            Some(note)
        },
        _ => None,
    }
}

/// Makes the report of an encoder run that did not pass. Where something
/// went wrong with the frames, that is reported in place of the encoder's
/// standard output.
pub fn crash_report(
    result: AttemptResult,
    index: usize,
    reason: &str,
    exit_code: Option<i32>,
    stdout: String,
    stderr: String,
    source_pipe_stderr: String,
    ffmpeg_pipe_stderr: Option<String>,
) -> (crash: Option<EncoderCrash>)
    ensures
        crash is None <==> result is Passed,
        crash matches Some(report) ==> {
            &&& report.exit_code == exit_code
            &&& report.stderr == stderr
            &&& report.source_pipe_stderr == source_pipe_stderr
            &&& report.ffmpeg_pipe_stderr == ffmpeg_pipe_stderr
            &&& report.stdout@ == match frames_note(result, index as nat, reason@) {
                Some(text) => text,
                None => stdout@,
            }
        },
{
    match result {
        AttemptResult::Passed => None,
        _ => {
            let said = match compose_frames_note(result, index, reason) {
                Some(note) => note,
                None => stdout,
            };
            Some(
                EncoderCrash {
                    exit_code,
                    stdout: said,
                    stderr,
                    source_pipe_stderr,
                    ffmpeg_pipe_stderr,
                },
            )
        },
    }
}

} // verus!
