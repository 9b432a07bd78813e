use av1an_core::scenes::{
    count_pieces, edge_of_piece, extra_splits, find_holder, force_keyframe, force_keyframes,
    scene_keyframes, scene_starts_at, scenes_from_cuts, starts_after_first, Scene,
};

fn scene(start_frame: usize, end_frame: usize) -> Scene {
    Scene { start_frame, end_frame }
}

fn covers(scenes: &[Scene], frames: usize) -> bool {
    if scenes.is_empty() {
        return frames == 0;
    }
    scenes[0].start_frame == 0
        && scenes[scenes.len() - 1].end_frame == frames
        && scenes.iter().all(|s| s.start_frame < s.end_frame)
        && scenes.windows(2).all(|w| w[0].end_frame == w[1].start_frame)
}

#[test]
fn extra_splits_cut_long_scenes_into_even_pieces() {
    let scenes = vec![scene(0, 400), scene(400, 1000)];
    let split = extra_splits(&scenes, 300);
    assert_eq!(
        split,
        vec![scene(0, 200), scene(200, 400), scene(400, 700), scene(700, 1000)]
    );
}

#[test]
fn extra_splits_leave_short_scenes_alone() {
    let scenes = vec![scene(0, 300), scene(300, 301)];
    assert_eq!(extra_splits(&scenes, 300), scenes);
}

#[test]
fn extra_splits_with_a_cap_of_zero_cut_nothing() {
    let scenes = vec![scene(0, 1000)];
    assert_eq!(extra_splits(&scenes, 0), scenes);
}

#[test]
fn extra_splits_of_no_scenes_are_no_scenes() {
    assert_eq!(extra_splits(&Vec::new(), 10), Vec::new());
}

#[test]
fn extra_splits_keep_a_scene_without_frames() {
    let scenes = vec![scene(5, 5), scene(9, 3)];
    assert_eq!(extra_splits(&scenes, 1), scenes);
}

#[test]
fn extra_splits_round_edges_down() {
    let split = extra_splits(&vec![scene(0, 10)], 3);
    assert_eq!(split, vec![scene(0, 2), scene(2, 5), scene(5, 7), scene(7, 10)]);
}

#[test]
fn extra_splits_with_a_cap_of_one_make_single_frames() {
    let split = extra_splits(&vec![scene(3, 7)], 1);
    assert_eq!(split, vec![scene(3, 4), scene(4, 5), scene(5, 6), scene(6, 7)]);
}

#[test]
fn extra_splits_keep_every_scene_under_the_cap() {
    for cap in 1..40usize {
        let scenes = vec![scene(0, 17), scene(17, 18), scene(18, 119), scene(119, 1000)];
        let split = extra_splits(&scenes, cap);
        assert!(split.iter().all(|s| s.end_frame - s.start_frame <= cap));
        assert!(covers(&split, 1000));
        for s in &scenes {
            assert!(split.iter().any(|p| p.start_frame == s.start_frame));
        }
    }
}

#[test]
fn piece_counts_round_up() {
    assert_eq!(count_pieces(400, 300), 2);
    assert_eq!(count_pieces(600, 300), 2);
    assert_eq!(count_pieces(601, 300), 3);
    assert_eq!(count_pieces(300, 300), 1);
    assert_eq!(count_pieces(0, 300), 1);
    assert_eq!(count_pieces(7, 0), 1);
}

#[test]
fn piece_edges_start_and_end_with_the_scene() {
    let s = scene(400, 1000);
    assert_eq!(edge_of_piece(s, 2, 0), 400);
    assert_eq!(edge_of_piece(s, 2, 1), 700);
    assert_eq!(edge_of_piece(s, 2, 2), 1000);
    assert_eq!(edge_of_piece(scene(0, 10), 3, 1), 3);
    assert_eq!(edge_of_piece(scene(0, 10), 3, 2), 6);
}

#[test]
fn scene_frames_are_counted() {
    assert_eq!(scene(10, 25).frames(), 15);
    assert_eq!(scene(10, 10).frames(), 0);
    assert_eq!(scene(10, 4).frames(), 0);
}

#[test]
fn holder_is_the_first_scene_with_the_frame() {
    let scenes = vec![scene(0, 10), scene(10, 20), scene(15, 30)];
    assert_eq!(find_holder(&scenes, 0), 0);
    assert_eq!(find_holder(&scenes, 9), 0);
    assert_eq!(find_holder(&scenes, 10), 1);
    assert_eq!(find_holder(&scenes, 17), 1);
    assert_eq!(find_holder(&scenes, 25), 2);
    assert_eq!(find_holder(&scenes, 30), 3);
    assert_eq!(find_holder(&Vec::new(), 0), 0);
}

#[test]
fn forced_keyframe_splits_the_scene_that_holds_it() {
    let mut scenes = vec![scene(0, 400), scene(400, 1000)];
    assert!(force_keyframe(&mut scenes, 250));
    assert_eq!(scenes, vec![scene(0, 250), scene(250, 400), scene(400, 1000)]);
}

#[test]
fn forced_keyframe_at_a_scene_start_changes_nothing() {
    let mut scenes = vec![scene(0, 400), scene(400, 1000)];
    assert!(force_keyframe(&mut scenes, 400));
    assert!(force_keyframe(&mut scenes, 0));
    assert_eq!(scenes, vec![scene(0, 400), scene(400, 1000)]);
}

#[test]
fn forced_keyframe_beyond_the_video_is_left_out() {
    let mut scenes = vec![scene(0, 400), scene(400, 1000)];
    assert!(!force_keyframe(&mut scenes, 1000));
    assert!(!force_keyframe(&mut scenes, 5000));
    assert_eq!(scenes, vec![scene(0, 400), scene(400, 1000)]);
}

#[test]
fn forced_keyframes_are_worked_in_one_after_another() {
    let mut scenes = vec![scene(0, 400), scene(400, 1000)];
    let stray = force_keyframes(&mut scenes, &vec![250, 2000, 999, 250, 1, 1000]);
    assert_eq!(stray, vec![2000, 1000]);
    assert_eq!(
        scenes,
        vec![
            scene(0, 1),
            scene(1, 250),
            scene(250, 400),
            scene(400, 999),
            scene(999, 1000)
        ]
    );
    assert!(covers(&scenes, 1000));
}

#[test]
fn every_forced_keyframe_in_the_video_starts_a_scene() {
    let keyframes: Vec<usize> = vec![7, 993, 500, 12, 400, 0, 399];
    let mut scenes = vec![scene(0, 400), scene(400, 1000)];
    force_keyframes(&mut scenes, &keyframes);
    for k in &keyframes {
        assert!(scenes.iter().any(|s| s.start_frame == *k));
        assert!(scene_starts_at(&scenes, *k));
    }
    assert!(!scene_starts_at(&scenes, 8));
    assert!(covers(&scenes, 1000));
}

#[test]
fn cut_points_of_segments_are_the_later_scene_starts() {
    let scenes = vec![scene(0, 100), scene(100, 500), scene(500, 900), scene(900, 1000)];
    assert_eq!(starts_after_first(&scenes), vec![100, 500, 900]);
    assert_eq!(starts_after_first(&vec![scene(0, 10)]), Vec::<usize>::new());
    assert_eq!(starts_after_first(&Vec::new()), Vec::<usize>::new());
}

#[test]
fn keyframes_that_start_a_scene_are_kept() {
    let scenes = vec![scene(0, 100), scene(100, 500), scene(500, 900), scene(900, 1000)];
    assert_eq!(
        scene_keyframes(&vec![0, 50, 100, 300, 900, 1000], &scenes),
        vec![0, 100, 900]
    );
    assert_eq!(scene_keyframes(&vec![1, 2, 3], &scenes), Vec::<usize>::new());
}

#[test]
fn cuts_make_scenes_that_cover_the_video() {
    assert_eq!(
        scenes_from_cuts(&vec![0, 100, 500, 900], 1000),
        vec![scene(0, 100), scene(100, 500), scene(500, 900), scene(900, 1000)]
    );
    assert_eq!(scenes_from_cuts(&vec![400], 1000), vec![scene(0, 400), scene(400, 1000)]);
    assert_eq!(scenes_from_cuts(&Vec::new(), 1000), vec![scene(0, 1000)]);
    assert_eq!(scenes_from_cuts(&vec![5], 0), Vec::new());
    assert_eq!(scenes_from_cuts(&Vec::new(), 0), Vec::new());
}

#[test]
fn cuts_that_do_not_rise_or_lie_outside_are_passed_over() {
    assert_eq!(
        scenes_from_cuts(&vec![0, 0, 300, 300, 200, 1000, 5000, 999], 1000),
        vec![scene(0, 300), scene(300, 999), scene(999, 1000)]
    );
    for cuts in [vec![7usize, 3, 9, 1], vec![10, 10, 10], vec![9, 8, 7, 100], vec![0]] {
        assert!(covers(&scenes_from_cuts(&cuts, 10), 10));
    }
}

#[test]
fn coverage_is_checked() {
    assert!(av1an_core::scenes::covers(&vec![scene(0, 400), scene(400, 1000)], 1000));
    assert!(av1an_core::scenes::covers(&Vec::new(), 0));
    assert!(!av1an_core::scenes::covers(&Vec::new(), 10));
    assert!(!av1an_core::scenes::covers(&vec![scene(0, 400), scene(400, 1000)], 999));
    assert!(!av1an_core::scenes::covers(&vec![scene(1, 400), scene(400, 1000)], 1000));
    assert!(!av1an_core::scenes::covers(&vec![scene(0, 400), scene(401, 1000)], 1000));
    assert!(!av1an_core::scenes::covers(&vec![scene(0, 400), scene(399, 1000)], 1000));
    assert!(!av1an_core::scenes::covers(&vec![scene(0, 0)], 0));
    assert!(!av1an_core::scenes::covers(&vec![scene(0, 400), scene(400, 400), scene(400, 1000)], 1000));
}
