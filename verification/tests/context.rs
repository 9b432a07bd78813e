use av1an_core::chunk::{Encoder, FrameRate, Input};
use av1an_core::context::Av1anContext;
use av1an_core::ledger::DoneLedger;
use av1an_core::planner::ChunkOrdering;
use av1an_core::settings::{
    ArgsError, ChunkMethod, ConcatMethod, EncodeArgs, InputPixelFormat, PixelFormat, SplitMethod,
    Verbosity,
};
use av1an_core::target_quality::{TargetQuality, VmafFeature};

fn args() -> EncodeArgs {
    EncodeArgs {
        input: Input::Video { path: "in.mkv".to_string() },
        frame_rate: FrameRate { numerator: 24, denominator: 1 },
        temp: ".tmp".to_string(),
        resume: true,
        keep: false,
        scenes: None,
        split_method: SplitMethod::AvScenechange,
        sc_only: false,
        force_keyframes: Vec::new(),
        extra_splits_len: None,
        chunk_method: ChunkMethod::Select,
        chunk_order: ChunkOrdering::LongestFirst,
        encoder: Encoder::Aom,
        passes: 2,
        video_params: Vec::new(),
        audio_params: Vec::new(),
        ffmpeg_filter_args: Vec::new(),
        input_pix_format: InputPixelFormat::FFmpeg { format: "yuv420p".to_string() },
        output_pix_format: PixelFormat { format: "yuv420p".to_string(), bit_depth: 8 },
        workers: 0,
        max_tries: 3,
        ignore_frame_mismatch: false,
        concat: ConcatMethod::MKVMerge,
        output_file: "out.mkv".to_string(),
        verbosity: Verbosity::Normal,
        target_quality: None,
    }
}

fn search(min_q: u32, max_q: u32) -> TargetQuality {
    TargetQuality {
        vmaf_res: "1920x1080".to_string(),
        vmaf_scaler: "bicubic".to_string(),
        vmaf_filter: None,
        vmaf_threads: 0,
        model: None,
        probing_rate: 1,
        probing_speed: None,
        probes: 4,
        target: 9500,
        min_q,
        max_q,
        encoder: Encoder::Aom,
        pix_format: "yuv420p".to_string(),
        temp: ".tmp".to_string(),
        workers: 1,
        video_params: Vec::new(),
        vspipe_args: Vec::new(),
        probe_slow: false,
        probing_vmaf_features: vec![VmafFeature::Default],
    }
}

#[test]
fn sound_settings_make_a_context() {
    let context = Av1anContext::new(args()).unwrap();
    assert_eq!(context.frames, 0);
    assert_eq!(context.vs_script, None);
    assert_eq!(context.args, args());
    assert_eq!(args().validate(), Ok(()));
}

#[test]
fn unsound_settings_are_named() {
    let mut settings = args();
    settings.passes = 0;
    settings.max_tries = 0;
    assert_eq!(Av1anContext::new(settings).err(), Some(ArgsError::Passes { passes: 0 }));
    let mut settings = args();
    settings.passes = 3;
    assert_eq!(settings.validate(), Err(ArgsError::Passes { passes: 3 }));
    let mut settings = args();
    settings.max_tries = 0;
    settings.target_quality = Some(search(9, 3));
    assert_eq!(settings.validate(), Err(ArgsError::NoTries));
    let mut settings = args();
    settings.target_quality = Some(search(9, 3));
    assert_eq!(
        Av1anContext::new(settings).err(),
        Some(ArgsError::QuantizerRange { min_q: 9, max_q: 3 })
    );
    let mut settings = args();
    settings.target_quality = Some(search(3, 3));
    assert!(Av1anContext::new(settings).is_ok());
}

#[test]
fn a_run_is_taken_up_only_with_ledger_and_queue() {
    for (done, tasks) in [(false, false), (true, false), (false, true)] {
        let mut context = Av1anContext::new(args()).unwrap();
        assert!(!context.initialize(done, tasks));
        assert!(!context.args.resume);
    }
    let mut context = Av1anContext::new(args()).unwrap();
    assert!(context.initialize(true, true));
    assert!(context.args.resume);
    let mut fresh = args();
    fresh.resume = false;
    let mut context = Av1anContext::new(fresh).unwrap();
    assert!(!context.initialize(true, true));
    assert!(!context.args.resume);
    assert_eq!(context.args.temp, ".tmp");
}

#[test]
fn frames_come_from_the_ledger_or_are_counted() {
    let mut context = Av1anContext::new(args()).unwrap();
    let mut ledger = DoneLedger::init(1000);
    assert!(ledger.record("00000".to_string(), 10, 10));
    context.restore_frames(&mut ledger, 77);
    assert_eq!((context.frames, ledger.frames), (1000, 1000));
    let mut ledger = DoneLedger::init(0);
    context.restore_frames(&mut ledger, 77);
    assert_eq!((context.frames, ledger.frames), (77, 77));
}

#[test]
fn scenes_are_read_from_a_file_that_is_there_or_on_resume() {
    let mut context = Av1anContext::new(args()).unwrap();
    assert!(context.uses_existing_cuts(false));
    context.args.resume = false;
    assert!(!context.uses_existing_cuts(true));
    context.args.scenes = Some("scenes.json".to_string());
    assert!(context.uses_existing_cuts(true));
    assert!(!context.uses_existing_cuts(false));
}

#[test]
fn script_cache_is_for_scripts_on_fresh_runs() {
    let mut context = Av1anContext::new(args()).unwrap();
    context.args.resume = false;
    assert!(!context.needs_script_cache());
    for method in
        [ChunkMethod::LSMASH, ChunkMethod::FFMS2, ChunkMethod::DGDECNV, ChunkMethod::BESTSOURCE]
    {
        context.args.chunk_method = method;
        assert!(context.needs_script_cache());
        assert!(method.is_script());
    }
    context.args.resume = true;
    assert!(!context.needs_script_cache());
    context.args.resume = false;
    for method in [ChunkMethod::Select, ChunkMethod::Hybrid, ChunkMethod::Segment] {
        context.args.chunk_method = method;
        assert!(!context.needs_script_cache());
        assert!(!method.is_script());
    }
    context.args.input =
        Input::VapourSynth { path: "in.vpy".to_string(), vspipe_args: Vec::new() };
    assert!(context.needs_script_cache());
}

#[test]
fn audio_is_encoded_once_for_videos() {
    let mut context = Av1anContext::new(args()).unwrap();
    let mut ledger = DoneLedger::init(0);
    assert!(context.encodes_audio(&ledger));
    ledger.audio_mark_done();
    assert!(!context.encodes_audio(&ledger));
    context.args.resume = false;
    assert!(context.encodes_audio(&ledger));
    context.args.input =
        Input::VapourSynth { path: "in.vpy".to_string(), vspipe_args: Vec::new() };
    assert!(!context.encodes_audio(&ledger));
}

#[test]
fn workers_are_no_more_than_chunks() {
    let mut context = Av1anContext::new(args()).unwrap();
    assert_eq!(context.effective_workers(6, 10), 6);
    assert_eq!(context.effective_workers(6, 4), 4);
    assert_eq!(context.effective_workers(6, 0), 0);
    context.args.workers = 3;
    assert_eq!(context.effective_workers(6, 10), 3);
    assert_eq!(context.effective_workers(6, 2), 2);
}

#[test]
fn working_directory_goes_when_the_result_is_there() {
    let mut context = Av1anContext::new(args()).unwrap();
    assert!(context.removes_temp(true));
    assert!(!context.removes_temp(false));
    context.args.keep = true;
    assert!(!context.removes_temp(true));
    assert!(!context.removes_temp(false));
}

#[test]
fn converter_runs_when_formats_differ() {
    let mut context = Av1anContext::new(args()).unwrap();
    assert!(!context.needs_converter());
    context.args.output_pix_format = PixelFormat { format: "yuv420p10le".to_string(), bit_depth: 10 };
    assert!(context.needs_converter());
    context.args.input_pix_format = InputPixelFormat::VapourSynth { bit_depth: 10 };
    assert!(!context.needs_converter());
    context.args.input_pix_format = InputPixelFormat::VapourSynth { bit_depth: 8 };
    assert!(context.needs_converter());
    context.args.input_pix_format = InputPixelFormat::VapourSynth { bit_depth: 10 };
    context.args.ffmpeg_filter_args = vec!["-vf".to_string(), "scale=1280:-2".to_string()];
    assert!(context.needs_converter());
}

#[test]
fn unsound_settings_are_worded() {
    assert_eq!(
        ArgsError::Passes { passes: 3 }.message(),
        "the number of passes is 3, and has to be 1 or 2"
    );
    assert_eq!(ArgsError::NoTries.message(), "the number of tries is 0, and has to be 1 at least");
    assert_eq!(
        ArgsError::QuantizerRange { min_q: 40, max_q: 20 }.message(),
        "the lowest quantizer, 40, is above the highest, 20"
    );
}
