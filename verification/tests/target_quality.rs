use av1an_core::chunk::{Chunk, Encoder, FrameRate, Input};
use av1an_core::target_quality::{
    adapt_probing_rate, already_probed, compose_probing_message, contains_feature,
    features_or_default, final_quantizer, interpolate_linear, log_probes, predict_quantizer,
    quantizer_range, vmaf_auto_threads, within_tolerance, Probe, QuantizerSearch, SearchAction,
    SkipProbingReason, TargetQuality, VmafFeature,
};

fn probe(quantizer: u32, score: u64) -> Probe {
    Probe { quantizer, score }
}

fn settings(min_q: u32, max_q: u32, probes: u32, target: u64) -> TargetQuality {
    TargetQuality {
        vmaf_res: "1920x1080".to_string(),
        vmaf_scaler: "bicubic".to_string(),
        vmaf_filter: None,
        vmaf_threads: 0,
        model: None,
        probing_rate: 1,
        probing_speed: None,
        probes,
        target,
        min_q,
        max_q,
        encoder: Encoder::Aom,
        pix_format: "yuv420p10le".to_string(),
        temp: ".tmp".to_string(),
        workers: 4,
        video_params: Vec::new(),
        vspipe_args: Vec::new(),
        probe_slow: false,
        probing_vmaf_features: vec![VmafFeature::Default],
    }
}

fn chunk(index: usize) -> Chunk {
    Chunk {
        temp: ".tmp".to_string(),
        index,
        input: Input::Video { path: "in.mkv".to_string() },
        source_cmd: vec!["ffmpeg".to_string()],
        output_ext: "ivf".to_string(),
        start_frame: 0,
        end_frame: 100,
        frame_rate: FrameRate { numerator: 24, denominator: 1 },
        video_params: Vec::new(),
        passes: 1,
        encoder: Encoder::Aom,
        ignore_frame_mismatch: false,
        tq_cq: None,
    }
}

/// Runs a search against an oracle and returns the quantizers probed and the
/// one chosen.
fn run(mut search: QuantizerSearch, oracle: &dyn Fn(u32) -> u64) -> (Vec<u32>, u32) {
    let mut probed = Vec::new();
    loop {
        match search.next_action(None) {
            SearchAction::Probe(q) => {
                probed.push(q);
                assert!(search.record(oracle(q)));
            },
            SearchAction::Finish(q) => return (probed, q),
        }
        assert!(probed.len() <= 1000);
    }
}

#[test]
fn probing_rate_is_kept_between_one_and_four() {
    assert_eq!(adapt_probing_rate(0), 1);
    assert_eq!(adapt_probing_rate(1), 1);
    assert_eq!(adapt_probing_rate(2), 2);
    assert_eq!(adapt_probing_rate(3), 3);
    assert_eq!(adapt_probing_rate(4), 4);
    assert_eq!(adapt_probing_rate(5), 1);
    assert_eq!(adapt_probing_rate(usize::MAX), 1);
}

#[test]
fn tolerance_is_one_percent_of_the_target() {
    assert!(within_tolerance(80, 80));
    assert!(!within_tolerance(81, 80));
    assert!(!within_tolerance(79, 80));
    assert!(within_tolerance(80_799, 80_000));
    assert!(!within_tolerance(80_800, 80_000));
    assert!(within_tolerance(79_201, 80_000));
    assert!(!within_tolerance(79_200, 80_000));
    assert!(!within_tolerance(0, 0));
    assert!(!within_tolerance(5, 0));
    assert!(within_tolerance(u64::MAX, u64::MAX));
    assert!(!within_tolerance(0, u64::MAX));
}

#[test]
fn first_predictions_are_midpoints() {
    assert_eq!(predict_quantizer(10, 50, &vec![], 80, None), 30);
    assert_eq!(predict_quantizer(10, 29, &vec![probe(30, 70)], 80, Some(11)), 19);
    assert_eq!(predict_quantizer(7, 7, &vec![], 80, None), 7);
    assert_eq!(predict_quantizer(u32::MAX - 1, u32::MAX, &vec![], 80, None), u32::MAX - 1);
    assert_eq!(predict_quantizer(0, u32::MAX, &vec![], 80, None), u32::MAX / 2);
    assert_eq!(predict_quantizer(u32::MAX, u32::MAX, &vec![], 80, None), u32::MAX);
    assert_eq!(predict_quantizer(50, 10, &vec![], 80, None), 30);
    assert_eq!(predict_quantizer(50, 11, &vec![probe(1, 1)], 80, Some(3)), 30);
}

#[test]
fn two_probes_are_joined_by_a_line() {
    let history = vec![probe(30, 70), probe(19, 81)];
    assert_eq!(predict_quantizer(20, 29, &history, 80, None), 20);
    assert_eq!(predict_quantizer(0, 63, &history, 75, None), 25);
    assert_eq!(predict_quantizer(0, 63, &history, 70, None), 30);
    assert_eq!(interpolate_linear(history[0], history[1], 80), Some(20));
    assert_eq!(interpolate_linear(history[1], history[0], 80), Some(20));
    assert_eq!(interpolate_linear(history[0], history[1], 70), Some(30));
    assert_eq!(interpolate_linear(probe(10, 0), probe(20, 4), 1), Some(13));
    assert_eq!(interpolate_linear(probe(10, 0), probe(20, 4), 2), Some(15));
    assert_eq!(interpolate_linear(probe(10, 0), probe(11, 2), 1), Some(11));
}

#[test]
fn a_line_is_not_read_beyond_its_probes() {
    let history = vec![probe(30, 70), probe(19, 81)];
    assert_eq!(interpolate_linear(history[0], history[1], 81), None);
    assert_eq!(interpolate_linear(history[0], history[1], 69), None);
    assert_eq!(interpolate_linear(history[0], history[1], 90), None);
    assert_eq!(interpolate_linear(probe(30, 70), probe(19, 70), 70), None);
    assert_eq!(predict_quantizer(20, 29, &history, 81, Some(5)), 24);
    assert_eq!(predict_quantizer(20, 30, &history, 10, None), 25);
}

#[test]
fn an_estimate_is_clamped_to_the_bounds() {
    let history = vec![probe(30, 70), probe(19, 81)];
    assert_eq!(predict_quantizer(22, 29, &history, 80, None), 22);
    assert_eq!(predict_quantizer(10, 15, &history, 80, None), 15);
}

#[test]
fn three_probes_take_the_sample_given() {
    let history = vec![probe(30, 70), probe(19, 81), probe(25, 76)];
    assert_eq!(predict_quantizer(20, 29, &history, 80, Some(21)), 21);
    assert_eq!(predict_quantizer(20, 29, &history, 80, Some(2)), 20);
    assert_eq!(predict_quantizer(20, 29, &history, 80, Some(u32::MAX)), 29);
    assert_eq!(predict_quantizer(20, 29, &history, 80, None), 24);
}

#[test]
fn history_is_searched_for_a_quantizer() {
    let history = vec![probe(30, 70), probe(19, 81)];
    assert!(already_probed(&history, 30));
    assert!(already_probed(&history, 19));
    assert!(!already_probed(&history, 20));
    assert!(!already_probed(&Vec::new(), 0));
}

#[test]
fn final_choice_prefers_the_highest_quantizer_within_tolerance() {
    let history = vec![probe(10, 8050), probe(30, 7990), probe(20, 8020), probe(40, 7000)];
    assert_eq!(final_quantizer(&history, 8000), Some(30));
}

#[test]
fn final_choice_without_a_hit_is_the_nearest_probe() {
    let history = vec![probe(30, 70), probe(19, 81), probe(25, 76)];
    assert_eq!(final_quantizer(&history, 80), Some(19));
    let history = vec![probe(30, 70), probe(25, 76), probe(12, 90)];
    assert_eq!(final_quantizer(&history, 80), Some(25));
}

#[test]
fn final_choice_between_equally_near_probes_is_the_higher_quantizer() {
    assert_eq!(final_quantizer(&vec![probe(19, 85), probe(30, 75)], 80), Some(30));
    assert_eq!(final_quantizer(&vec![probe(30, 75), probe(19, 85)], 80), Some(30));
    assert_eq!(final_quantizer(&vec![probe(30, 75), probe(19, 85), probe(40, 74)], 80), Some(30));
}

#[test]
fn final_choice_of_no_probes_is_none() {
    assert_eq!(final_quantizer(&Vec::new(), 80), None);
}

#[test]
fn search_needs_a_quantizer_to_choose_from() {
    assert!(QuantizerSearch::new(51, 50, 4, 80).is_none());
    assert!(QuantizerSearch::new(50, 50, 4, 80).is_some());
    assert!(settings(51, 50, 4, 80).start_search().is_none());
    let search = settings(10, 50, 4, 80).start_search().unwrap();
    assert_eq!((search.lower, search.upper, search.probes, search.target), (10, 50, 4, 80));
    assert!(search.history.is_empty());
    assert!(!search.is_finished());
}

#[test]
fn search_probes_the_midpoint_then_follows_the_scores() {
    let mut search = QuantizerSearch::new(10, 50, 4, 80).unwrap();
    assert_eq!(search.next_action(None), SearchAction::Probe(30));
    assert!(search.record(70));
    assert_eq!((search.lower, search.upper), (10, 29));
    assert!(!search.is_finished());
    assert_eq!(search.next_action(None), SearchAction::Probe(19));
    assert!(search.record(81));
    assert_eq!((search.lower, search.upper), (20, 29));
    assert!(!search.is_finished());
    assert_eq!(search.next_action(None), SearchAction::Probe(20));
    assert!(search.record(80));
    assert!(search.is_finished());
    assert_eq!(search.stopped, Some(SkipProbingReason::WithinTolerance));
    assert_eq!(search.next_action(None), SearchAction::Finish(20));
    assert_eq!(search.history, vec![probe(30, 70), probe(19, 81), probe(20, 80)]);
}

#[test]
fn search_stops_at_a_score_within_tolerance() {
    let mut search = QuantizerSearch::new(10, 50, 4, 8000).unwrap();
    assert_eq!(search.next_action(None), SearchAction::Probe(30));
    assert!(search.record(7000));
    assert_eq!(search.next_action(None), SearchAction::Probe(19));
    assert!(search.record(8079));
    assert_eq!(search.stopped, Some(SkipProbingReason::WithinTolerance));
    assert_eq!(search.next_action(None), SearchAction::Finish(19));
    assert_eq!((search.lower, search.upper), (10, 29));
}

#[test]
fn search_stops_when_the_budget_is_used() {
    let mut search = QuantizerSearch::new(0, 63, 2, 1000).unwrap();
    assert_eq!(search.next_action(None), SearchAction::Probe(31));
    assert!(search.record(10));
    assert_eq!(search.next_action(None), SearchAction::Probe(15));
    assert!(search.record(20));
    assert_eq!(search.stopped, Some(SkipProbingReason::ProbeLimitReached));
    assert_eq!(search.next_action(None), SearchAction::Finish(15));
}

#[test]
fn search_with_no_budget_probes_once() {
    let (probed, chosen) = run(QuantizerSearch::new(0, 63, 0, 1000).unwrap(), &|_| 10);
    assert_eq!(probed, vec![31]);
    assert_eq!(chosen, 31);
}

#[test]
fn search_stops_when_the_prediction_repeats() {
    let mut search = QuantizerSearch::new(40, 41, 10, 1000).unwrap();
    assert_eq!(search.next_action(None), SearchAction::Probe(40));
    assert!(search.record(2000));
    assert_eq!((search.lower, search.upper), (41, 41));
    assert_eq!(search.next_action(None), SearchAction::Probe(41));
    assert!(search.record(1500));
    assert_eq!((search.lower, search.upper), (41, 41));
    assert_eq!(search.next_action(None), SearchAction::Finish(41));
    assert_eq!(search.stopped, Some(SkipProbingReason::NoSkip));
}

#[test]
fn search_bounds_stop_at_the_limits() {
    let mut search = QuantizerSearch::new(0, 0, 5, 1000).unwrap();
    assert_eq!(search.next_action(None), SearchAction::Probe(0));
    assert!(search.record(10));
    assert_eq!((search.lower, search.upper), (0, 0));
    let mut search = QuantizerSearch::new(u32::MAX, u32::MAX, 5, 1000).unwrap();
    assert_eq!(search.next_action(None), SearchAction::Probe(u32::MAX));
    assert!(search.record(5000));
    assert_eq!((search.lower, search.upper), (u32::MAX, u32::MAX));
}

#[test]
fn search_takes_no_score_without_a_probe() {
    let mut search = QuantizerSearch::new(10, 50, 4, 80).unwrap();
    assert!(!search.record(70));
    assert!(search.history.is_empty());
    assert_eq!(search.next_action(None), SearchAction::Probe(30));
    assert!(search.record(80));
    assert!(!search.record(80));
    assert_eq!(search.history, vec![probe(30, 80)]);
}

#[test]
fn search_asked_twice_names_the_same_probe() {
    let mut search = QuantizerSearch::new(10, 50, 4, 80).unwrap();
    assert_eq!(search.next_action(None), SearchAction::Probe(30));
    assert_eq!(search.next_action(None), SearchAction::Probe(30));
    assert!(search.record(70));
    assert_eq!(search.history.len(), 1);
}

#[test]
fn search_uses_the_sample_from_the_third_probe_on() {
    let mut search = QuantizerSearch::new(0, 100, 6, 5000).unwrap();
    assert_eq!(search.next_action(Some(77)), SearchAction::Probe(50));
    assert!(search.record(4000));
    assert_eq!(search.next_action(Some(77)), SearchAction::Probe(24));
    assert!(search.record(4500));
    assert_eq!((search.lower, search.upper), (0, 23));
    assert_eq!(search.next_action(Some(77)), SearchAction::Probe(11));
    assert!(search.record(4800));
    assert_eq!((search.lower, search.upper), (0, 10));
    assert_eq!(search.next_action(Some(7)), SearchAction::Probe(7));
    assert!(search.record(4900));
    assert_eq!(search.next_action(Some(77)), SearchAction::Probe(6));
}

#[test]
fn every_search_ends_within_its_budget_and_its_limits() {
    for budget in 1..7u32 {
        for target in [1u64, 50, 80, 99, 1000] {
            for (min_q, max_q) in [(0u32, 63u32), (10, 50), (20, 20), (0, 255), (5, 6)] {
                let falling = move |q: u32| 100u64.saturating_sub(q as u64);
                let (probed, chosen) =
                    run(QuantizerSearch::new(min_q, max_q, budget, target).unwrap(), &falling);
                assert!(!probed.is_empty());
                assert!(probed.len() <= budget as usize);
                assert!(probed.iter().all(|q| min_q <= *q && *q <= max_q));
                assert!(min_q <= chosen && chosen <= max_q);
                assert!(probed.contains(&chosen));
                let history: Vec<Probe> = probed.iter().map(|q| probe(*q, falling(*q))).collect();
                assert_eq!(final_quantizer(&history, target), Some(chosen));
                let hits: Vec<u32> = history
                    .iter()
                    .filter(|p| within_tolerance(p.score, target))
                    .map(|p| p.quantizer)
                    .collect();
                if let Some(best) = hits.iter().max() {
                    assert_eq!(chosen, *best);
                } else {
                    let nearest = history.iter().map(|p| p.score.abs_diff(target)).min().unwrap();
                    let best = history
                        .iter()
                        .filter(|p| p.score.abs_diff(target) == nearest)
                        .map(|p| p.quantizer)
                        .max()
                        .unwrap();
                    assert_eq!(chosen, best);
                }
            }
        }
    }
}

#[test]
fn routine_notes_the_chosen_quantizer_in_the_chunk() {
    let tq = settings(10, 50, 4, 80);
    let mut search = tq.start_search().unwrap();
    let mut c = chunk(3);
    assert_eq!(
        tq.per_shot_target_quality_routine(&mut c, &mut search, None),
        SearchAction::Probe(30)
    );
    assert_eq!(c.tq_cq, None);
    assert!(search.record(80));
    assert_eq!(
        tq.per_shot_target_quality_routine(&mut c, &mut search, None),
        SearchAction::Finish(30)
    );
    assert_eq!(c.tq_cq, Some(30));
}

#[test]
fn metric_threads_are_a_quarter_more_than_a_worker_has() {
    assert_eq!(vmaf_auto_threads(16, 4), 5);
    assert_eq!(vmaf_auto_threads(16, 1), 20);
    assert_eq!(vmaf_auto_threads(3, 4), 1);
    assert_eq!(vmaf_auto_threads(4, 4), 1);
    assert_eq!(vmaf_auto_threads(8, 4), 2);
    assert_eq!(vmaf_auto_threads(0, 1), 1);
    assert_eq!(vmaf_auto_threads(usize::MAX, 1), usize::MAX);
    let mut tq = settings(0, 63, 4, 80);
    assert_eq!(tq.probe_threads(16), 5);
    tq.vmaf_threads = 3;
    assert_eq!(tq.probe_threads(16), 3);
}

#[test]
fn probe_files_are_named_after_chunk_and_quantizer() {
    let mut tq = settings(0, 63, 4, 80);
    assert_eq!(tq.probe_file(&chunk(7), 31), ".tmp/split/v_00007_31.ivf");
    assert_eq!(tq.work_file(&chunk(7)), ".tmp/split/7.json");
    tq.encoder = Encoder::X264;
    assert_eq!(tq.probe_file(&chunk(12345), 0), ".tmp/split/v_12345_0.264");
    tq.encoder = Encoder::X265;
    assert_eq!(tq.probe_file(&chunk(0), 255), ".tmp/split/v_00000_255.hevc");
}

#[test]
fn metric_features_are_looked_up() {
    let mut tq = settings(0, 63, 4, 80);
    let flags = tq.feature_flags();
    assert_eq!((flags.weighted, flags.neg, flags.motionless), (false, false, false));
    assert_eq!(tq.probe_model(), None);
    tq.probing_vmaf_features = vec![VmafFeature::Neg, VmafFeature::Motionless];
    let flags = tq.feature_flags();
    assert_eq!((flags.weighted, flags.neg, flags.motionless), (false, true, true));
    assert_eq!(tq.probe_model(), Some("vmaf_v0.6.1neg.json".to_string()));
    tq.model = Some("mine.json".to_string());
    assert_eq!(tq.probe_model(), Some("mine.json".to_string()));
    assert!(contains_feature(&vec![VmafFeature::Weighted], VmafFeature::Weighted));
    assert!(!contains_feature(&Vec::new(), VmafFeature::Default));
}

#[test]
fn probes_are_recorded_by_quantizer() {
    let mut history = vec![probe(30, 70), probe(19, 81), probe(25, 76), probe(19, 80)];
    let suffix = log_probes(&mut history, SkipProbingReason::WithinTolerance);
    assert_eq!(suffix, " Early Skip Within Tolerance");
    assert_eq!(history, vec![probe(19, 81), probe(19, 80), probe(25, 76), probe(30, 70)]);
    assert_eq!(log_probes(&mut history, SkipProbingReason::NoSkip), "");
    assert_eq!(
        log_probes(&mut history, SkipProbingReason::QuantizerTooHigh),
        "Early Skip High Quantizer"
    );
    assert_eq!(
        log_probes(&mut history, SkipProbingReason::QuantizerTooLow),
        " Early Skip Low Quantizer"
    );
    assert_eq!(
        log_probes(&mut Vec::new(), SkipProbingReason::ProbeLimitReached),
        " Early Skip Probe Limit Reached"
    );
}

#[test]
fn probe_in_progress_is_worded() {
    assert_eq!(compose_probing_message("95", 31), "Targeting Quality 95 - Testing 31");
    assert_eq!(compose_probing_message("92.5", 0), "Targeting Quality 92.5 - Testing 0");
}

#[test]
fn search_settings_fall_back_to_defaults() {
    assert_eq!(quantizer_range(Some((20, 40)), (15, 55)), (20, 40));
    assert_eq!(quantizer_range(None, (15, 55)), (15, 55));
    assert_eq!(features_or_default(Vec::new()), vec![VmafFeature::Default]);
    assert_eq!(
        features_or_default(vec![VmafFeature::Neg, VmafFeature::Weighted]),
        vec![VmafFeature::Neg, VmafFeature::Weighted]
    );
}
