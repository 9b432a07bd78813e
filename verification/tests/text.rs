use av1an_core::chunk::FrameRate;
use av1an_core::params::{
    audio_params, compose_scaler, extra_split_len, frames_within, probe_params, probe_params_from,
    split_params, verbosity_of, words_or_fault, ParamKind, ParamsError,
};
use av1an_core::settings::Verbosity;
use av1an_core::text::{
    is_segment_file, is_whitespace, parse_comma_separated_numbers, parse_number, read_answer, trim,
    ListFault, NumberFault,
};
use av1an_core::util::decimal_string;

fn texts(words: &[&str]) -> Vec<String> {
    words.iter().map(|w| w.to_string()).collect()
}

#[test]
fn white_space_is_told_from_other_characters() {
    for c in [' ', '\t', '\n', '\r', '\u{0b}', '\u{0c}', '\u{85}', '\u{a0}', '\u{1680}'] {
        assert!(is_whitespace(c));
    }
    for c in ['\u{2000}', '\u{200a}', '\u{2028}', '\u{2029}', '\u{202f}', '\u{205f}', '\u{3000}'] {
        assert!(is_whitespace(c));
    }
    for c in ['a', '0', ',', '\u{0}', '\u{8}', '\u{e}', '\u{200b}', '\u{feff}', '\u{180e}'] {
        assert!(!is_whitespace(c));
    }
    for code in 0..0x3100u32 {
        if let Some(c) = char::from_u32(code) {
            assert_eq!(is_whitespace(c), c.is_whitespace());
        }
    }
}

#[test]
fn white_space_is_taken_off_both_ends() {
    assert_eq!(trim("  a b \t\n"), "a b");
    assert_eq!(trim("a"), "a");
    assert_eq!(trim(""), "");
    assert_eq!(trim(" \u{3000}\t "), "");
    assert_eq!(trim("\u{a0}é \u{2003}ü\u{2028}"), "é \u{2003}ü");
    for text in ["x ", " x", " x y ", "\n\nx", "α β ", "   "] {
        assert_eq!(trim(text), text.trim());
    }
}

#[test]
fn numbers_are_read() {
    assert_eq!(parse_number("0"), Ok(0));
    assert_eq!(parse_number("250"), Ok(250));
    assert_eq!(parse_number("+250"), Ok(250));
    assert_eq!(parse_number("000250"), Ok(250));
    assert_eq!(parse_number(&usize::MAX.to_string()), Ok(usize::MAX));
}

#[test]
fn what_is_no_number_is_named() {
    assert_eq!(parse_number(""), Err(NumberFault::Empty));
    assert_eq!(parse_number("+"), Err(NumberFault::InvalidDigit));
    assert_eq!(parse_number("-1"), Err(NumberFault::InvalidDigit));
    assert_eq!(parse_number("12a"), Err(NumberFault::InvalidDigit));
    assert_eq!(parse_number(" 12"), Err(NumberFault::InvalidDigit));
    assert_eq!(parse_number("1 2"), Err(NumberFault::InvalidDigit));
    assert_eq!(parse_number("++1"), Err(NumberFault::InvalidDigit));
    assert_eq!(parse_number("١٢"), Err(NumberFault::InvalidDigit));
    assert_eq!(parse_number("18446744073709551616"), Err(NumberFault::TooLarge));
    assert_eq!(parse_number("99999999999999999999999999"), Err(NumberFault::TooLarge));
    assert_eq!(parse_number("99999999999999999999999999x"), Err(NumberFault::InvalidDigit));
}

#[test]
fn lists_of_numbers_are_read() {
    assert_eq!(parse_comma_separated_numbers(""), Ok(vec![]));
    assert_eq!(parse_comma_separated_numbers("   \t"), Ok(vec![]));
    assert_eq!(parse_comma_separated_numbers("250"), Ok(vec![250]));
    assert_eq!(parse_comma_separated_numbers("250,500"), Ok(vec![250, 500]));
    assert_eq!(parse_comma_separated_numbers(" 1 , 2,3 ,+4 "), Ok(vec![1, 2, 3, 4]));
    assert_eq!(parse_comma_separated_numbers("7,7,7"), Ok(vec![7, 7, 7]));
}

#[test]
fn the_first_item_that_is_no_number_is_named() {
    assert_eq!(
        parse_comma_separated_numbers(","),
        Err(ListFault { item: 0, fault: NumberFault::Empty })
    );
    assert_eq!(
        parse_comma_separated_numbers("1,"),
        Err(ListFault { item: 1, fault: NumberFault::Empty })
    );
    assert_eq!(
        parse_comma_separated_numbers("1,,x"),
        Err(ListFault { item: 1, fault: NumberFault::Empty })
    );
    assert_eq!(
        parse_comma_separated_numbers("1, 2 ,x3, 4,y"),
        Err(ListFault { item: 2, fault: NumberFault::InvalidDigit })
    );
    assert_eq!(
        parse_comma_separated_numbers("1,99999999999999999999999"),
        Err(ListFault { item: 1, fault: NumberFault::TooLarge })
    );
    assert_eq!(
        parse_comma_separated_numbers("1 2"),
        Err(ListFault { item: 0, fault: NumberFault::InvalidDigit })
    );
}

#[test]
fn settings_are_split_into_words() {
    assert_eq!(split_params(None, ParamKind::Video), Ok(vec![]));
    assert_eq!(
        split_params(Some(&"--cpu-used=4 --tune 'ssim psnr'  -x".to_string()), ParamKind::Video),
        Ok(texts(&["--cpu-used=4", "--tune", "ssim psnr", "-x"]))
    );
    assert_eq!(split_params(Some(&"".to_string()), ParamKind::Filter), Ok(vec![]));
    assert_eq!(
        split_params(Some(&"a \"b c\" d\\ e".to_string()), ParamKind::Filter),
        Ok(texts(&["a", "b c", "d e"]))
    );
}

#[test]
fn settings_that_cannot_be_split_are_faults() {
    assert_eq!(
        split_params(Some(&"--tune 'ssim".to_string()), ParamKind::Video),
        Err(ParamsError { kind: ParamKind::Video })
    );
    assert_eq!(
        split_params(Some(&"a \"b".to_string()), ParamKind::Filter),
        Err(ParamsError { kind: ParamKind::Filter })
    );
    assert_eq!(
        audio_params(Some(&"-c:a 'x".to_string())),
        Err(ParamsError { kind: ParamKind::Audio })
    );
    assert_eq!(words_or_fault(None, ParamKind::Audio), Err(ParamsError { kind: ParamKind::Audio }));
    assert_eq!(words_or_fault(Some(texts(&["a"])), ParamKind::Audio), Ok(texts(&["a"])));
}

#[test]
fn audio_is_copied_unless_told_otherwise() {
    assert_eq!(audio_params(None), Ok(texts(&["-c:a", "copy"])));
    assert_eq!(
        audio_params(Some(&"-c:a libopus -b:a 128k".to_string())),
        Ok(texts(&["-c:a", "libopus", "-b:a", "128k"]))
    );
}

#[test]
fn probes_copy_the_encoder_arguments_when_asked() {
    let video = texts(&["--cpu-used=4"]);
    assert_eq!(probe_params(None, &video), (None, false));
    assert_eq!(probe_params(Some(&"copy".to_string()), &video), (Some(video.clone()), true));
    assert_eq!(
        probe_params(Some(&"--cpu-used=6 -q".to_string()), &video),
        (Some(texts(&["--cpu-used=6", "-q"])), false)
    );
    assert_eq!(probe_params(Some(&"'open".to_string()), &video), (None, false));
    assert_eq!(probe_params(Some(&"Copy".to_string()), &video), (Some(texts(&["Copy"])), false));
    assert_eq!(
        probe_params_from(Some(&"x".to_string()), Some(texts(&["y"])), &video),
        (Some(texts(&["y"])), false)
    );
    assert_eq!(probe_params_from(None, Some(texts(&["y"])), &video), (None, false));
}

#[test]
fn flags_settle_how_much_is_shown() {
    assert_eq!(verbosity_of(false, false), Verbosity::Normal);
    assert_eq!(verbosity_of(true, false), Verbosity::Quiet);
    assert_eq!(verbosity_of(false, true), Verbosity::Verbose);
    assert_eq!(verbosity_of(true, true), Verbosity::Quiet);
}

#[test]
fn scene_cap_is_given_or_worked_out() {
    assert_eq!(extra_split_len(Some(0), 240), None);
    assert_eq!(extra_split_len(Some(300), 240), Some(300));
    assert_eq!(extra_split_len(None, 240), Some(240));
    assert_eq!(extra_split_len(None, 0), Some(0));
    assert_eq!(frames_within(FrameRate { numerator: 24, denominator: 1 }, 10_000), 240);
    assert_eq!(frames_within(FrameRate { numerator: 24000, denominator: 1001 }, 10_000), 239);
    assert_eq!(frames_within(FrameRate { numerator: 30000, denominator: 1001 }, 1), 0);
    assert_eq!(frames_within(FrameRate { numerator: 0, denominator: 1 }, 10_000), 0);
    assert_eq!(frames_within(FrameRate { numerator: 24, denominator: 0 }, 10_000), usize::MAX);
    assert_eq!(
        frames_within(FrameRate { numerator: u32::MAX, denominator: 1 }, u64::MAX),
        usize::MAX
    );
}

#[test]
fn scaler_gets_its_flags() {
    let flags = "+accurate_rnd+full_chroma_int+full_chroma_inp+bitexact";
    assert_eq!(compose_scaler("bicubic"), format!("bicubic{flags}"));
    assert_eq!(compose_scaler("lanczos"), format!("lanczos{flags}"));
    assert_eq!(compose_scaler("lanczos3"), format!("lanczos{flags}:param0=3"));
    assert_eq!(compose_scaler("lanczos9"), format!("lanczos{flags}:param0=9"));
    assert_eq!(compose_scaler("lanczos0"), format!("lanczos0{flags}"));
    assert_eq!(compose_scaler("lanczos12"), format!("lanczos{flags}:param0=2"));
    assert_eq!(compose_scaler("spline3"), format!("spline3{flags}"));
    assert_eq!(compose_scaler("lancz3"), format!("lancz3{flags}"));
    assert_eq!(compose_scaler(""), flags);
}

#[test]
fn numbers_written_in_decimal_read_back() {
    for n in [0usize, 1, 9, 10, 99, 100, 12345, 99999, 100000, usize::MAX - 1, usize::MAX] {
        assert_eq!(parse_number(&decimal_string(n)), Ok(n));
    }
}

#[test]
fn answers_are_yes_no_or_neither() {
    assert_eq!(read_answer("y"), Some(true));
    assert_eq!(read_answer("Y\n"), Some(true));
    assert_eq!(read_answer("  y  "), Some(true));
    assert_eq!(read_answer("n"), Some(false));
    assert_eq!(read_answer("N\r\n"), Some(false));
    assert_eq!(read_answer(""), Some(false));
    assert_eq!(read_answer("\n"), Some(false));
    assert_eq!(read_answer("yes"), None);
    assert_eq!(read_answer("no"), None);
    assert_eq!(read_answer("j"), None);
    assert_eq!(read_answer("y n"), None);
}

#[test]
fn segment_files_end_in_mkv() {
    assert!(is_segment_file("00000.mkv"));
    assert!(is_segment_file(".tmp/split/00012.mkv"));
    assert!(is_segment_file("a.mkv"));
    assert!(!is_segment_file(".mkv"));
    assert!(!is_segment_file("mkv"));
    assert!(!is_segment_file("00000.mp4"));
    assert!(!is_segment_file("00000.MKV"));
    assert!(!is_segment_file("00000.mkv.part"));
    assert!(!is_segment_file("00000_fpf"));
    assert!(!is_segment_file(""));
}
