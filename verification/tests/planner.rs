use av1an_core::chunk::{Chunk, Encoder, FrameRate, Input};
use av1an_core::context::{Av1anContext, PlannerError, SegmentFile, Strategy};
use av1an_core::ledger::DoneLedger;
use av1an_core::planner::{
    compose_script_command, compose_segment_command, compose_select_command, find_first,
    may_go_before, order_queue, ChunkOrdering,
};
use av1an_core::scenes::Scene;
use av1an_core::settings::{
    ChunkMethod, ConcatMethod, EncodeArgs, InputPixelFormat, PixelFormat, SplitMethod, Verbosity,
};

fn scene(start_frame: usize, end_frame: usize) -> Scene {
    Scene { start_frame, end_frame }
}

fn args(input: Input, chunk_method: ChunkMethod, chunk_order: ChunkOrdering) -> EncodeArgs {
    EncodeArgs {
        input,
        frame_rate: FrameRate { numerator: 24000, denominator: 1001 },
        temp: ".tmp".to_string(),
        resume: false,
        keep: false,
        scenes: None,
        split_method: SplitMethod::AvScenechange,
        sc_only: false,
        force_keyframes: Vec::new(),
        extra_splits_len: Some(300),
        chunk_method,
        chunk_order,
        encoder: Encoder::Aom,
        passes: 2,
        video_params: vec!["--end-usage=q".to_string(), "--cq-level=30".to_string()],
        audio_params: vec!["-c:a".to_string(), "copy".to_string()],
        ffmpeg_filter_args: Vec::new(),
        input_pix_format: InputPixelFormat::FFmpeg { format: "yuv420p".to_string() },
        output_pix_format: PixelFormat { format: "yuv420p10le".to_string(), bit_depth: 10 },
        workers: 2,
        max_tries: 3,
        ignore_frame_mismatch: false,
        concat: ConcatMethod::MKVMerge,
        output_file: "out.mkv".to_string(),
        verbosity: Verbosity::Normal,
        target_quality: None,
    }
}

fn video() -> Input {
    Input::Video { path: "in.mkv".to_string() }
}

fn script() -> Input {
    Input::VapourSynth { path: "in.vpy".to_string(), vspipe_args: vec!["a=1".to_string()] }
}

fn context(input: Input, method: ChunkMethod, order: ChunkOrdering, frames: usize) -> Av1anContext {
    let mut context = Av1anContext::new(args(input, method, order)).unwrap();
    context.frames = frames;
    context
}

fn ranges(queue: &[Chunk]) -> Vec<(usize, usize)> {
    queue.iter().map(|c| (c.start_frame, c.end_frame)).collect()
}

fn indices(queue: &[Chunk]) -> Vec<usize> {
    queue.iter().map(|c| c.index).collect()
}

fn texts(words: &[&str]) -> Vec<String> {
    words.iter().map(|w| w.to_string()).collect()
}

/// Whether every frame below `frames` lies in one chunk and no more.
fn partitions(queue: &[Chunk], frames: usize) -> bool {
    (0..frames).all(|f| queue.iter().filter(|c| c.start_frame <= f && f < c.end_frame).count() == 1)
        && queue.iter().all(|c| c.end_frame <= frames)
}

#[test]
fn select_command_decodes_and_filters() {
    assert_eq!(
        compose_select_command("in.mkv", 200, 400, "yuv420p10le"),
        texts(&[
            "ffmpeg",
            "-y",
            "-hide_banner",
            "-loglevel",
            "error",
            "-i",
            "in.mkv",
            "-vf",
            "select=between(n\\,200\\,399)",
            "-pix_fmt",
            "yuv420p10le",
            "-strict",
            "-1",
            "-f",
            "yuv4mpegpipe",
            "-",
        ])
    );
}

#[test]
fn script_command_asks_for_inclusive_frames() {
    assert_eq!(
        compose_script_command("in.vpy", 0, 200),
        texts(&["vspipe", "in.vpy", "-c", "y4m", "-", "-s", "0", "-e", "199"])
    );
    assert_eq!(
        compose_script_command("in.vpy", 7, 8),
        texts(&["vspipe", "in.vpy", "-c", "y4m", "-", "-s", "7", "-e", "7"])
    );
}

#[test]
fn segment_command_decodes_the_whole_file() {
    assert_eq!(
        compose_segment_command(".tmp/split/00001.mkv", "yuv420p"),
        texts(&[
            "ffmpeg",
            "-y",
            "-hide_banner",
            "-loglevel",
            "error",
            "-i",
            ".tmp/split/00001.mkv",
            "-strict",
            "-1",
            "-pix_fmt",
            "yuv420p",
            "-f",
            "yuv4mpegpipe",
            "-",
        ])
    );
}

#[test]
fn select_task_carries_the_settings() {
    let context = context(video(), ChunkMethod::Select, ChunkOrdering::Sequential, 1000);
    let chunk = context.create_select_task(3, &"in.mkv".to_string(), 200, 400);
    assert_eq!(chunk.index, 3);
    assert_eq!(chunk.temp, ".tmp");
    assert_eq!(chunk.input, video());
    assert_eq!((chunk.start_frame, chunk.end_frame), (200, 400));
    assert_eq!(chunk.source_cmd, compose_select_command("in.mkv", 200, 400, "yuv420p10le"));
    assert_eq!(chunk.output_ext, "ivf");
    assert_eq!(chunk.frame_rate, FrameRate { numerator: 24000, denominator: 1001 });
    assert_eq!(chunk.video_params, texts(&["--end-usage=q", "--cq-level=30"]));
    assert_eq!(chunk.passes, 2);
    assert_eq!(chunk.encoder, Encoder::Aom);
    assert!(!chunk.ignore_frame_mismatch);
    assert_eq!(chunk.tq_cq, None);
}

#[test]
fn script_task_carries_the_script_and_its_arguments() {
    let context = context(script(), ChunkMethod::LSMASH, ChunkOrdering::Sequential, 1000);
    let chunk = context.create_vs_task(1, &"in.vpy".to_string(), &scene(400, 1000));
    assert_eq!(chunk.input, script());
    assert_eq!(chunk.source_cmd, compose_script_command("in.vpy", 400, 1000));
    assert_eq!((chunk.index, chunk.start_frame, chunk.end_frame), (1, 400, 1000));
}

#[test]
fn segment_task_covers_the_whole_segment() {
    let context = context(video(), ChunkMethod::Segment, ChunkOrdering::Sequential, 1000);
    let file = SegmentFile { path: ".tmp/split/00002.mkv".to_string(), frames: 400 };
    let chunk = context.create_task_from_segment(2, &file);
    assert_eq!(chunk.input, Input::Video { path: ".tmp/split/00002.mkv".to_string() });
    assert_eq!((chunk.index, chunk.start_frame, chunk.end_frame), (2, 0, 400));
    assert_eq!(chunk.source_cmd, compose_segment_command(".tmp/split/00002.mkv", "yuv420p10le"));
}

#[test]
fn select_queue_has_one_chunk_per_scene() {
    let context = context(video(), ChunkMethod::Select, ChunkOrdering::Sequential, 1000);
    let scenes = vec![scene(0, 200), scene(200, 400), scene(400, 700), scene(700, 1000)];
    let queue = context.create_video_queue_select(&scenes).unwrap();
    assert_eq!(ranges(&queue), vec![(0, 200), (200, 400), (400, 700), (700, 1000)]);
    assert_eq!(indices(&queue), vec![0, 1, 2, 3]);
    assert!(partitions(&queue, 1000));
    assert_eq!(queue[1], context.create_select_task(1, &"in.mkv".to_string(), 200, 400));
}

#[test]
fn script_queue_has_one_chunk_per_scene() {
    let context = context(script(), ChunkMethod::Select, ChunkOrdering::Sequential, 1000);
    let scenes = vec![scene(0, 400), scene(400, 1000)];
    let queue = context.create_video_queue_vs(&scenes, &"in.vpy".to_string()).unwrap();
    assert_eq!(ranges(&queue), vec![(0, 400), (400, 1000)]);
    assert_eq!(queue[1], context.create_vs_task(1, &"in.vpy".to_string(), &scenes[1]));
}

#[test]
fn segment_queue_has_one_chunk_per_segment_file() {
    let context = context(video(), ChunkMethod::Segment, ChunkOrdering::Sequential, 1000);
    let scenes = vec![scene(0, 100), scene(100, 500), scene(500, 900), scene(900, 1000)];
    let keyframes = vec![0, 100, 500, 900];
    assert_eq!(context.segment_points(&scenes, &keyframes), Ok(Some(vec![100, 500, 900])));
    let segments: Vec<SegmentFile> = [100usize, 400, 400, 100]
        .iter()
        .enumerate()
        .map(|(i, frames)| SegmentFile { path: format!(".tmp/split/{i:05}.mkv"), frames: *frames })
        .collect();
    assert_eq!(segments.len(), 4);
    let queue = context.create_encoding_queue(&scenes, &keyframes, &segments).unwrap();
    assert_eq!(queue.len(), 4);
    assert_eq!(ranges(&queue), vec![(0, 100), (0, 400), (0, 400), (0, 100)]);
    for (i, chunk) in queue.iter().enumerate() {
        assert_eq!(chunk.index, i);
        assert_eq!(chunk.input, Input::Video { path: segments[i].path.clone() });
        assert_eq!(chunk.source_cmd, compose_segment_command(&segments[i].path, "yuv420p10le"));
    }
}

#[test]
fn hybrid_queue_selects_scenes_within_segments() {
    let context = context(video(), ChunkMethod::Hybrid, ChunkOrdering::Sequential, 1000);
    let scenes = vec![scene(0, 100), scene(100, 300), scene(300, 500), scene(500, 1000)];
    let keyframes = vec![0, 50, 300, 400];
    assert_eq!(context.segment_points(&scenes, &keyframes), Ok(Some(vec![300])));
    let segments = vec![
        SegmentFile { path: "first.mkv".to_string(), frames: 300 },
        SegmentFile { path: "second.mkv".to_string(), frames: 700 },
    ];
    let queue = context.create_video_queue_hybrid(&scenes, &keyframes, &segments).unwrap();
    assert_eq!(ranges(&queue), vec![(0, 100), (100, 300), (0, 200), (200, 700)]);
    assert_eq!(indices(&queue), vec![0, 1, 2, 3]);
    let files: Vec<&str> = queue.iter().map(|c| c.input.path().as_str()).collect();
    assert_eq!(files, vec!["first.mkv", "first.mkv", "second.mkv", "second.mkv"]);
    assert_eq!(queue[3], context.create_select_task(3, &"second.mkv".to_string(), 200, 700));
}

#[test]
fn hybrid_queue_stops_with_the_segment_files() {
    let context = context(video(), ChunkMethod::Hybrid, ChunkOrdering::Sequential, 1000);
    let scenes = vec![scene(0, 100), scene(100, 300), scene(300, 1000)];
    let segments = vec![SegmentFile { path: "first.mkv".to_string(), frames: 300 }];
    let queue = context.create_video_queue_hybrid(&scenes, &vec![0, 300], &segments).unwrap();
    assert_eq!(ranges(&queue), vec![(0, 100), (100, 300)]);
    let none = context.create_video_queue_hybrid(&scenes, &vec![0, 300], &Vec::new()).unwrap();
    assert!(none.is_empty());
}

#[test]
fn planner_names_what_it_cannot_plan() {
    let scenes = vec![scene(0, 100), scene(100, 100), scene(100, 50)];
    let select = context(video(), ChunkMethod::Select, ChunkOrdering::Sequential, 100);
    assert_eq!(
        select.create_video_queue_select(&scenes),
        Err(PlannerError::EmptyScene { strategy: Strategy::Select, index: 1 })
    );
    assert_eq!(
        select.create_video_queue_vs(&scenes, &"x.vpy".to_string()),
        Err(PlannerError::EmptyScene { strategy: Strategy::Script, index: 1 })
    );
    let on_script = context(script(), ChunkMethod::Select, ChunkOrdering::Sequential, 100);
    assert_eq!(
        on_script.create_video_queue_select(&Vec::new()),
        Err(PlannerError::NotAVideo { strategy: Strategy::Select })
    );
    assert_eq!(
        on_script.create_video_queue_segment(&Vec::new()),
        Err(PlannerError::NotAVideo { strategy: Strategy::Segment })
    );
    assert_eq!(
        on_script.create_video_queue_hybrid(&Vec::new(), &Vec::new(), &Vec::new()),
        Err(PlannerError::NotAVideo { strategy: Strategy::Hybrid })
    );
    let segment = context(video(), ChunkMethod::Segment, ChunkOrdering::Sequential, 100);
    assert_eq!(segment.create_video_queue_segment(&Vec::new()), Err(PlannerError::NoSegments));
    assert_eq!(
        segment.create_encoding_queue(&scenes, &Vec::new(), &Vec::new()),
        Err(PlannerError::NoSegments)
    );
    let hybrid = context(video(), ChunkMethod::Hybrid, ChunkOrdering::Sequential, 100);
    assert_eq!(
        hybrid.create_video_queue_hybrid(&scenes, &vec![5, 7], &Vec::new()),
        Err(PlannerError::NoSplitPoint)
    );
    assert_eq!(hybrid.segment_points(&scenes, &vec![5, 7]), Err(PlannerError::NoSplitPoint));
    let lsmash = context(video(), ChunkMethod::LSMASH, ChunkOrdering::Sequential, 100);
    assert_eq!(
        lsmash.create_encoding_queue(&scenes, &Vec::new(), &Vec::new()),
        Err(PlannerError::MissingScript)
    );
}

#[test]
fn strategies_that_do_not_cut_have_no_cut_points() {
    let scenes = vec![scene(0, 100), scene(100, 200)];
    for method in [ChunkMethod::Select, ChunkMethod::LSMASH, ChunkMethod::FFMS2] {
        let context = context(video(), method, ChunkOrdering::Sequential, 200);
        assert_eq!(context.segment_points(&scenes, &vec![0, 100]), Ok(None));
    }
    let on_script = context(script(), ChunkMethod::Segment, ChunkOrdering::Sequential, 200);
    assert_eq!(on_script.segment_points(&scenes, &vec![0, 100]), Ok(None));
}

#[test]
fn script_strategy_for_a_video_uses_the_generated_script() {
    let mut context = context(video(), ChunkMethod::BESTSOURCE, ChunkOrdering::Sequential, 200);
    context.vs_script = Some(".tmp/split/loadscript.vpy".to_string());
    let scenes = vec![scene(0, 100), scene(100, 200)];
    let queue = context.create_encoding_queue(&scenes, &Vec::new(), &Vec::new()).unwrap();
    assert_eq!(queue.len(), 2);
    assert_eq!(
        queue[0].input,
        Input::VapourSynth { path: ".tmp/split/loadscript.vpy".to_string(), vspipe_args: Vec::new() }
    );
    assert_eq!(queue[1].source_cmd, compose_script_command(".tmp/split/loadscript.vpy", 100, 200));
}

#[test]
fn script_input_is_planned_by_the_script_strategy_whatever_the_method() {
    let context = context(script(), ChunkMethod::Segment, ChunkOrdering::Sequential, 200);
    let scenes = vec![scene(0, 100), scene(100, 200)];
    let queue = context.create_encoding_queue(&scenes, &Vec::new(), &Vec::new()).unwrap();
    assert_eq!(queue[0], context.create_vs_task(0, &"in.vpy".to_string(), &scenes[0]));
    assert_eq!(queue.len(), 2);
}

#[test]
fn longest_first_puts_long_chunks_first_and_equal_ones_by_index() {
    let context = context(video(), ChunkMethod::Select, ChunkOrdering::LongestFirst, 1000);
    let scenes =
        vec![scene(0, 100), scene(100, 400), scene(400, 500), scene(500, 800), scene(800, 1000)];
    let queue = context.create_encoding_queue(&scenes, &Vec::new(), &Vec::new()).unwrap();
    assert_eq!(indices(&queue), vec![1, 3, 4, 0, 2]);
    assert!(partitions(&queue, 1000));
}

#[test]
fn shortest_first_puts_short_chunks_first_and_equal_ones_by_index() {
    let context = context(video(), ChunkMethod::Select, ChunkOrdering::ShortestFirst, 1000);
    let scenes =
        vec![scene(0, 100), scene(100, 400), scene(400, 500), scene(500, 800), scene(800, 1000)];
    let queue = context.create_encoding_queue(&scenes, &Vec::new(), &Vec::new()).unwrap();
    assert_eq!(indices(&queue), vec![0, 2, 4, 1, 3]);
    assert!(partitions(&queue, 1000));
}

#[test]
fn sequential_order_keeps_the_plan() {
    let context = context(video(), ChunkMethod::Select, ChunkOrdering::Sequential, 1000);
    let scenes = vec![scene(0, 100), scene(100, 400), scene(400, 1000)];
    let queue = context.create_encoding_queue(&scenes, &Vec::new(), &Vec::new()).unwrap();
    assert_eq!(queue, context.create_video_queue_select(&scenes).unwrap());
}

#[test]
fn random_order_keeps_every_chunk_once() {
    let context = context(video(), ChunkMethod::Select, ChunkOrdering::Random, 4000);
    let scenes: Vec<Scene> = (0..200).map(|i| scene(i * 20, i * 20 + 20)).collect();
    let queue = context.create_encoding_queue(&scenes, &Vec::new(), &Vec::new()).unwrap();
    let mut seen = indices(&queue);
    assert_ne!(seen, (0..200).collect::<Vec<usize>>());
    seen.sort();
    assert_eq!(seen, (0..200).collect::<Vec<usize>>());
    assert!(partitions(&queue, 4000));
    let plain = context.create_video_queue_select(&scenes).unwrap();
    for chunk in &queue {
        assert_eq!(*chunk, plain[chunk.index]);
    }
}

#[test]
fn ordering_a_queue_by_hand() {
    let context = context(video(), ChunkMethod::Select, ChunkOrdering::Sequential, 1000);
    let path = "in.mkv".to_string();
    let a = context.create_select_task(0, &path, 0, 10);
    let b = context.create_select_task(1, &path, 10, 40);
    let c = context.create_select_task(2, &path, 40, 50);
    assert!(may_go_before(ChunkOrdering::LongestFirst, &b, &a));
    assert!(!may_go_before(ChunkOrdering::LongestFirst, &a, &b));
    assert!(may_go_before(ChunkOrdering::LongestFirst, &a, &c));
    assert!(!may_go_before(ChunkOrdering::LongestFirst, &c, &a));
    assert!(may_go_before(ChunkOrdering::ShortestFirst, &a, &b));
    assert!(may_go_before(ChunkOrdering::Sequential, &a, &c));
    assert!(!may_go_before(ChunkOrdering::Sequential, &c, &a));
    assert!(may_go_before(ChunkOrdering::Random, &c, &a));
    let queue = vec![c, a, b];
    assert_eq!(find_first(&queue, ChunkOrdering::LongestFirst), 2);
    assert_eq!(find_first(&queue, ChunkOrdering::ShortestFirst), 1);
    let ordered = order_queue(queue, ChunkOrdering::ShortestFirst);
    assert_eq!(indices(&ordered), vec![0, 2, 1]);
    assert!(order_queue(Vec::new(), ChunkOrdering::LongestFirst).is_empty());
}

#[test]
fn planning_scenes_splits_long_scenes_then_forces_keyframes() {
    let mut context = context(video(), ChunkMethod::Select, ChunkOrdering::Sequential, 0);
    let mut ledger = DoneLedger::init(0);
    let detected = Some((vec![scene(0, 400), scene(400, 1000)], 1000));
    let plan = context.split_routine(&mut ledger, None, 1000, detected).unwrap();
    assert_eq!(
        plan.scenes,
        vec![scene(0, 200), scene(200, 400), scene(400, 700), scene(700, 1000)]
    );
    assert_eq!(plan.scenes_before, 2);
    assert!(plan.stray.is_empty());
    assert_eq!(context.frames, 1000);
    assert_eq!(ledger.frames, 1000);
    let queue = context.create_encoding_queue(&plan.scenes, &Vec::new(), &Vec::new()).unwrap();
    assert_eq!(ranges(&queue), vec![(0, 200), (200, 400), (400, 700), (700, 1000)]);
    assert!(partitions(&queue, 1000));
}

#[test]
fn planning_scenes_with_a_forced_keyframe_adds_a_chunk_that_starts_there() {
    let mut settings = args(video(), ChunkMethod::Select, ChunkOrdering::Sequential);
    settings.force_keyframes = vec![250];
    let mut context = Av1anContext::new(settings).unwrap();
    let mut ledger = DoneLedger::init(0);
    let detected = Some((vec![scene(0, 400), scene(400, 1000)], 1000));
    let plan = context.split_routine(&mut ledger, None, 1000, detected).unwrap();
    let queue = context.create_encoding_queue(&plan.scenes, &Vec::new(), &Vec::new()).unwrap();
    assert_eq!(queue.len(), 5);
    assert!(queue.iter().any(|c| c.start_frame == 250));
    assert_eq!(
        ranges(&queue),
        vec![(0, 200), (200, 250), (250, 400), (400, 700), (700, 1000)]
    );
    assert!(queue.iter().all(|c| c.end_frame - c.start_frame <= 300));
    assert!(partitions(&queue, 1000));
}

#[test]
fn planning_scenes_read_from_a_file_makes_no_extra_splits() {
    let mut settings = args(video(), ChunkMethod::Select, ChunkOrdering::Sequential);
    settings.force_keyframes = vec![250, 4000];
    let mut context = Av1anContext::new(settings).unwrap();
    let mut ledger = DoneLedger::init(0);
    let existing = Some((vec![scene(0, 400), scene(400, 1000)], 1000));
    let plan = context.split_routine(&mut ledger, existing, 77, None).unwrap();
    assert_eq!(plan.scenes, vec![scene(0, 250), scene(250, 400), scene(400, 1000)]);
    assert_eq!(plan.stray, vec![4000]);
    assert_eq!(context.frames, 1000);
}

#[test]
fn planning_scenes_without_detection_takes_the_whole_video() {
    let mut settings = args(video(), ChunkMethod::Select, ChunkOrdering::Sequential);
    settings.split_method = SplitMethod::NoSplit;
    settings.extra_splits_len = None;
    let mut context = Av1anContext::new(settings).unwrap();
    assert_eq!(context.calc_split_locations(500, None), Ok((vec![scene(0, 500)], 500)));
    let mut ledger = DoneLedger::init(0);
    let plan = context.split_routine(&mut ledger, None, 500, None).unwrap();
    assert_eq!(plan.scenes, vec![scene(0, 500)]);
    assert_eq!((context.frames, ledger.frames), (500, 500));
}

#[test]
fn planning_scenes_needs_the_detected_scenes() {
    let mut context = context(video(), ChunkMethod::Select, ChunkOrdering::Sequential, 0);
    assert_eq!(context.calc_split_locations(500, None), Err(PlannerError::MissingSceneDetection));
    let found = (vec![scene(0, 9)], 9);
    assert_eq!(context.calc_split_locations(500, Some(found.clone())), Ok(found));
    let mut ledger = DoneLedger::init(3);
    assert_eq!(
        context.split_routine(&mut ledger, None, 500, None).err(),
        Some(PlannerError::MissingSceneDetection)
    );
    assert_eq!(ledger.frames, 3);
}

#[test]
fn hybrid_chunks_moved_to_their_segments_are_the_scenes() {
    let context = context(video(), ChunkMethod::Hybrid, ChunkOrdering::Sequential, 1000);
    let scenes = vec![
        scene(0, 100),
        scene(100, 300),
        scene(300, 500),
        scene(500, 640),
        scene(640, 1000),
    ];
    let keyframes = vec![0, 50, 300, 400, 640, 900];
    let points = vec![0usize, 300, 640];
    let segments: Vec<SegmentFile> = (0..3)
        .map(|i| SegmentFile { path: format!("{i:05}.mkv"), frames: 0 })
        .collect();
    let queue = context.create_video_queue_hybrid(&scenes, &keyframes, &segments).unwrap();
    assert_eq!(queue.len(), scenes.len());
    for (chunk, scene) in queue.iter().zip(scenes.iter()) {
        let file: usize = chunk.input.path()[0..5].parse().unwrap();
        assert_eq!(chunk.start_frame + points[file], scene.start_frame);
        assert_eq!(chunk.end_frame + points[file], scene.end_frame);
    }
    assert_eq!(ranges(&queue), vec![(0, 100), (100, 300), (0, 200), (200, 340), (0, 360)]);
}

#[test]
fn planner_errors_name_strategy_and_lack() {
    assert_eq!(
        PlannerError::EmptyScene { strategy: Strategy::Select, index: 12 }.diagnostic(),
        "select: scene 12 has no frames"
    );
    assert_eq!(
        PlannerError::EmptyScene { strategy: Strategy::Script, index: 0 }.diagnostic(),
        "script: scene 0 has no frames"
    );
    assert_eq!(
        PlannerError::NotAVideo { strategy: Strategy::Hybrid }.diagnostic(),
        "hybrid: the input is no container file"
    );
    assert_eq!(
        PlannerError::NotAVideo { strategy: Strategy::Segment }.diagnostic(),
        "segment: the input is no container file"
    );
    assert_eq!(PlannerError::NoSegments.diagnostic(), "segment: no segment files were found");
    assert_eq!(PlannerError::NoSplitPoint.diagnostic(), "hybrid: no key-frame starts a scene");
    assert_eq!(
        PlannerError::MissingScript.diagnostic(),
        "script: no frame-server script was made for the input"
    );
    assert_eq!(
        PlannerError::MissingSceneDetection.diagnostic(),
        "scenes: no detected scenes were given"
    );
    assert_eq!(PlannerError::MissingQueue.diagnostic(), "resume: no saved queue was given");
    assert_eq!(Strategy::Select.name(), "select");
}
