use av1an_core::broker::AttemptResult;
use av1an_core::pipes::{
    compose_frames_note, compose_source_argv, crash_report, encode_pipeline, first_pass_file,
    make_stage, pass_kind, shows_on_worker_bar, take_encoder_output, CommandDescriptor,
    EncoderCrash, PassKind, Stdio,
};
use av1an_core::settings::Verbosity;

fn texts(words: &[&str]) -> Vec<String> {
    words.iter().map(|w| w.to_string()).collect()
}

fn stage(program: &str, args: &[&str], first: bool) -> CommandDescriptor {
    CommandDescriptor {
        program: program.to_string(),
        args: texts(args),
        stdin: if first { Stdio::Null } else { Stdio::PipeFromPrevious },
        stdout: Stdio::Capture,
        stderr: Stdio::Capture,
    }
}

#[test]
fn a_command_line_makes_a_stage() {
    assert_eq!(make_stage(texts(&["ffmpeg", "-i", "-"]), false), stage("ffmpeg", &["-i", "-"], false));
    assert_eq!(make_stage(texts(&["vspipe"]), true), stage("vspipe", &[], true));
}

#[test]
fn script_arguments_follow_the_program() {
    assert_eq!(
        compose_source_argv(&texts(&["vspipe", "in.vpy", "-"]), &texts(&["a=1", "b=2"])),
        texts(&["vspipe", "-a", "a=1", "-a", "b=2", "in.vpy", "-"])
    );
    assert_eq!(
        compose_source_argv(&texts(&["ffmpeg", "-i", "x"]), &Vec::new()),
        texts(&["ffmpeg", "-i", "x"])
    );
    assert_eq!(compose_source_argv(&texts(&["p"]), &texts(&["a"])), texts(&["p", "-a", "a"]));
}

#[test]
fn pipeline_is_source_converter_encoder() {
    let stages = encode_pipeline(
        &texts(&["vspipe", "in.vpy"]),
        &texts(&["k=v"]),
        Some(texts(&["ffmpeg", "-i", "-"])),
        texts(&["aomenc", "-o", "out.ivf", "-"]),
    )
    .unwrap();
    assert_eq!(
        stages,
        vec![
            stage("vspipe", &["-a", "k=v", "in.vpy"], true),
            stage("ffmpeg", &["-i", "-"], false),
            stage("aomenc", &["-o", "out.ivf", "-"], false),
        ]
    );
}

#[test]
fn pipeline_without_converter_has_two_stages() {
    let stages =
        encode_pipeline(&texts(&["ffmpeg", "-i", "x"]), &Vec::new(), None, texts(&["rav1e", "-"]))
            .unwrap();
    assert_eq!(stages, vec![stage("ffmpeg", &["-i", "x"], true), stage("rav1e", &["-"], false)]);
}

#[test]
fn pipeline_needs_every_program() {
    let some = texts(&["x"]);
    assert_eq!(encode_pipeline(&Vec::new(), &Vec::new(), None, some.clone()), None);
    assert_eq!(encode_pipeline(&some, &Vec::new(), None, Vec::new()), None);
    assert_eq!(encode_pipeline(&some, &Vec::new(), Some(Vec::new()), some.clone()), None);
    assert!(encode_pipeline(&some, &Vec::new(), Some(some.clone()), some.clone()).is_some());
}

#[test]
fn passes_are_told_apart() {
    assert_eq!(pass_kind(1, 1), PassKind::Single);
    assert_eq!(pass_kind(2, 1), PassKind::FirstOfTwo);
    assert_eq!(pass_kind(2, 2), PassKind::SecondOfTwo);
}

#[test]
fn first_pass_statistics_go_under_split() {
    assert_eq!(first_pass_file(".tmp", 12), ".tmp/split/00012_fpf");
}

#[test]
fn encoder_output_is_logged_line_by_line() {
    let mut log = String::new();
    assert_eq!(
        take_encoder_output(&mut log, &b"frame 12/100\r".to_vec()),
        Some("frame 12/100\r".to_string())
    );
    assert_eq!(
        take_encoder_output(&mut log, &"Größe 7\u{2713}".as_bytes().to_vec()),
        Some("Größe 7\u{2713}".to_string())
    );
    assert_eq!(take_encoder_output(&mut log, &Vec::new()), Some(String::new()));
    assert_eq!(log, "frame 12/100\r\nGröße 7\u{2713}\n\n");
}

#[test]
fn encoder_output_that_is_no_text_is_dropped() {
    let mut log = "before\n".to_string();
    assert_eq!(take_encoder_output(&mut log, &vec![0x66, 0xff, 0x67]), None);
    assert_eq!(take_encoder_output(&mut log, &vec![0xc3]), None);
    assert_eq!(take_encoder_output(&mut log, &vec![0xed, 0xa0, 0x80]), None);
    assert_eq!(take_encoder_output(&mut log, &vec![0xc0, 0x80]), None);
    assert_eq!(log, "before\n");
}

#[test]
fn lines_without_a_break_go_to_the_worker_bar() {
    assert!(shows_on_worker_bar(Verbosity::Verbose, "frame 12/100\r"));
    assert!(shows_on_worker_bar(Verbosity::Verbose, ""));
    assert!(!shows_on_worker_bar(Verbosity::Verbose, "a\nb"));
    assert!(!shows_on_worker_bar(Verbosity::Verbose, "\n"));
    assert!(!shows_on_worker_bar(Verbosity::Normal, "frame 12/100\r"));
    assert!(!shows_on_worker_bar(Verbosity::Quiet, "frame 12/100\r"));
}

#[test]
fn frame_faults_are_worded() {
    assert_eq!(
        compose_frames_note(AttemptResult::FrameMismatch { actual: 249, expected: 250 }, 7, ""),
        Some("FRAME MISMATCH: task 7: 249/250 (actual/expected frames)".to_string())
    );
    assert_eq!(
        compose_frames_note(AttemptResult::FramesUncounted, 12, "no such file"),
        Some("FAILED TO COUNT FRAMES: task 12: no such file".to_string())
    );
    assert_eq!(compose_frames_note(AttemptResult::Crashed, 7, "x"), None);
    assert_eq!(compose_frames_note(AttemptResult::Passed, 7, "x"), None);
}

#[test]
fn crash_reports_carry_the_streams() {
    let report = crash_report(
        AttemptResult::Crashed,
        3,
        "",
        Some(1),
        "out".to_string(),
        "err".to_string(),
        "source".to_string(),
        Some("convert".to_string()),
    );
    assert_eq!(
        report,
        Some(EncoderCrash {
            exit_code: Some(1),
            stdout: "out".to_string(),
            stderr: "err".to_string(),
            source_pipe_stderr: "source".to_string(),
            ffmpeg_pipe_stderr: Some("convert".to_string()),
        })
    );
    let report = crash_report(
        AttemptResult::FrameMismatch { actual: 1, expected: 2 },
        3,
        "",
        Some(0),
        "out".to_string(),
        "err".to_string(),
        String::new(),
        None,
    )
    .unwrap();
    assert_eq!(report.stdout, "FRAME MISMATCH: task 3: 1/2 (actual/expected frames)");
    assert_eq!(report.stderr, "err");
    assert_eq!(report.exit_code, Some(0));
    assert_eq!(
        crash_report(
            AttemptResult::Passed,
            3,
            "",
            Some(0),
            String::new(),
            String::new(),
            String::new(),
            None
        ),
        None
    );
}
