use av1an_core::chunk::FrameRate;
use av1an_core::ledger::DoneLedger;
use av1an_core::progress_bar::{
    append_right_aligned, compose_chunks_prefix, compose_estimates_message, compose_position,
    compose_rate_and_size,
    convert_to_progress, dec_bar, estimate, finish_progress_bar, frames_left, frames_since_resume,
    get_audio_size, inc_bar, inc_mp_bar,
    init_multi_progress_bar, init_progress_bar, no_bars, reset_bar_at, reset_mp_bar_at,
    set_audio_size, set_len, set_pos, update_bar_info, update_mp_bar_info, update_mp_chunk,
    update_mp_msg, update_progress_bar_estimates, BarStyle, Estimates,
};
use av1an_core::settings::Verbosity;

#[test]
fn audio_size_is_set_once() {
    let mut bars = no_bars();
    assert_eq!(get_audio_size(&bars), 0);
    set_audio_size(&mut bars, 4096);
    assert_eq!(get_audio_size(&bars), 4096);
    set_audio_size(&mut bars, 1);
    assert_eq!(get_audio_size(&bars), 4096);
}

#[test]
fn total_bar_starts_at_zero() {
    let mut bars = no_bars();
    init_progress_bar(&mut bars, 1000, 250, Some((1, 4)));
    let bar = bars.bar.as_ref().unwrap();
    assert_eq!((bar.position, bar.length), (0, 1000));
    assert_eq!(bar.prefix, "[1/4 Chunks] ");
    assert_eq!(bar.message, "");
    assert_eq!(bar.style, BarStyle::Progress { resume_frames: 250 });
    assert!(!bar.finished);
    assert!(bars.multi.is_none());
}

#[test]
fn total_bar_of_unknown_length_is_a_spinner() {
    let mut bars = no_bars();
    init_progress_bar(&mut bars, 0, 0, None);
    let bar = bars.bar.as_ref().unwrap();
    assert_eq!(bar.style, BarStyle::Spinner { resume_frames: 0 });
    assert_eq!(bar.prefix, "");
    convert_to_progress(&mut bars, 30);
    assert_eq!(bars.bar.as_ref().unwrap().style, BarStyle::Progress { resume_frames: 30 });
}

#[test]
fn total_bar_is_set_up_once() {
    let mut bars = no_bars();
    init_progress_bar(&mut bars, 1000, 0, Some((0, 4)));
    inc_bar(&mut bars, 500);
    finish_progress_bar(&mut bars);
    init_progress_bar(&mut bars, 77, 9, None);
    let bar = bars.bar.as_ref().unwrap();
    assert_eq!((bar.position, bar.length), (0, 1000));
    assert_eq!(bar.style, BarStyle::Progress { resume_frames: 0 });
    assert_eq!(bar.prefix, "[0/4 Chunks] ");
    assert!(!bar.finished);
}

#[test]
fn total_bar_moves_forward_and_back() {
    let mut bars = no_bars();
    inc_bar(&mut bars, 5);
    dec_bar(&mut bars, 5);
    set_pos(&mut bars, 5);
    reset_bar_at(&mut bars, 5);
    convert_to_progress(&mut bars, 5);
    assert!(bars.bar.is_none());
    init_progress_bar(&mut bars, 1000, 0, None);
    inc_bar(&mut bars, 300);
    inc_bar(&mut bars, 200);
    assert_eq!(bars.bar.as_ref().unwrap().position, 500);
    dec_bar(&mut bars, 120);
    assert_eq!(bars.bar.as_ref().unwrap().position, 380);
    dec_bar(&mut bars, 1000);
    assert_eq!(bars.bar.as_ref().unwrap().position, 0);
    set_pos(&mut bars, 640);
    assert_eq!(bars.bar.as_ref().unwrap().position, 640);
    set_len(&mut bars, 2000);
    assert_eq!(bars.bar.as_ref().unwrap().length, 2000);
    inc_bar(&mut bars, u64::MAX);
    assert_eq!(bars.bar.as_ref().unwrap().position, 639);
}

#[test]
fn total_bar_starts_over_at_a_position() {
    let mut bars = no_bars();
    init_progress_bar(&mut bars, 1000, 0, None);
    inc_bar(&mut bars, 300);
    finish_progress_bar(&mut bars);
    assert!(bars.bar.as_ref().unwrap().finished);
    reset_bar_at(&mut bars, 250);
    let bar = bars.bar.as_ref().unwrap();
    assert_eq!(bar.position, 250);
    assert!(!bar.finished);
    assert_eq!(bar.length, 1000);
}

#[test]
fn total_bar_shows_message_and_chunks() {
    let mut bars = no_bars();
    update_bar_info(&mut bars, "x".to_string(), Some((1, 2)));
    assert!(bars.bar.is_none());
    init_progress_bar(&mut bars, 1000, 0, Some((0, 9)));
    update_bar_info(&mut bars, ", 1.0 Kbps".to_string(), None);
    assert_eq!(bars.bar.as_ref().unwrap().message, ", 1.0 Kbps");
    assert_eq!(bars.bar.as_ref().unwrap().prefix, "[0/9 Chunks] ");
    update_bar_info(&mut bars, ", 2.0 Kbps".to_string(), Some((3, 9)));
    assert_eq!(bars.bar.as_ref().unwrap().message, ", 2.0 Kbps");
    assert_eq!(bars.bar.as_ref().unwrap().prefix, "[3/9 Chunks] ");
}

#[test]
fn detailed_display_has_a_bar_per_worker_and_a_total() {
    let mut bars = no_bars();
    init_multi_progress_bar(&mut bars, 1000, 3, 250, (2, 120));
    let all = bars.multi.as_ref().unwrap();
    assert_eq!(all.len(), 4);
    for bar in &all[0..3] {
        assert_eq!(bar.prefix, "[Idle    3]");
        assert_eq!(bar.style, BarStyle::Worker);
        assert_eq!((bar.position, bar.length), (0, 0));
    }
    assert_eq!(all[3].prefix, "[2/120 Chunks] ");
    assert_eq!(all[3].style, BarStyle::Progress { resume_frames: 250 });
    assert_eq!((all[3].position, all[3].length), (0, 1000));
    init_multi_progress_bar(&mut bars, 5, 1, 0, (0, 1));
    assert_eq!(bars.multi.as_ref().unwrap().len(), 4);
    assert!(bars.bar.is_none());
}

#[test]
fn detailed_display_without_workers_has_its_total() {
    let mut bars = no_bars();
    init_multi_progress_bar(&mut bars, 10, 0, 0, (0, 5));
    assert_eq!(bars.multi.as_ref().unwrap().len(), 1);
    inc_mp_bar(&mut bars, 4);
    assert_eq!(bars.multi.as_ref().unwrap()[0].position, 4);
}

#[test]
fn worker_bars_show_chunk_and_message() {
    let mut bars = no_bars();
    update_mp_chunk(&mut bars, 0, 7, 3);
    update_mp_msg(&mut bars, 0, "x".to_string());
    assert!(bars.multi.is_none());
    init_multi_progress_bar(&mut bars, 1000, 2, 0, (0, 120));
    update_mp_chunk(&mut bars, 1, 7, 3);
    update_mp_chunk(&mut bars, 0, 1234, 3);
    update_mp_msg(&mut bars, 1, "frame 12".to_string());
    let all = bars.multi.as_ref().unwrap();
    assert_eq!(all[1].prefix, "[Chunk   7]");
    assert_eq!(all[0].prefix, "[Chunk 1234]");
    assert_eq!(all[1].message, "frame 12");
    assert_eq!(all[0].message, "");
    assert_eq!(all[2].prefix, "[0/120 Chunks] ");
}

#[test]
fn detailed_total_moves_forward_and_back() {
    let mut bars = no_bars();
    inc_mp_bar(&mut bars, 5);
    reset_mp_bar_at(&mut bars, 5);
    assert!(bars.multi.is_none());
    init_progress_bar(&mut bars, 1000, 0, None);
    init_multi_progress_bar(&mut bars, 1000, 2, 0, (0, 4));
    inc_mp_bar(&mut bars, 300);
    inc_bar(&mut bars, 300);
    dec_bar(&mut bars, 100);
    assert_eq!(bars.multi.as_ref().unwrap()[2].position, 200);
    assert_eq!(bars.bar.as_ref().unwrap().position, 200);
    assert_eq!(bars.multi.as_ref().unwrap()[0].position, 0);
    reset_mp_bar_at(&mut bars, 250);
    assert_eq!(bars.multi.as_ref().unwrap()[2].position, 250);
    update_mp_bar_info(&mut bars, ", 5.5 Kbps".to_string(), (1, 4));
    assert_eq!(bars.multi.as_ref().unwrap()[2].message, ", 5.5 Kbps");
    assert_eq!(bars.multi.as_ref().unwrap()[2].prefix, "[1/4 Chunks] ");
    finish_progress_bar(&mut bars);
    assert!(bars.multi.as_ref().unwrap().iter().all(|bar| bar.finished));
    assert!(bars.bar.as_ref().unwrap().finished);
}

#[test]
fn texts_in_front_of_bars() {
    assert_eq!(compose_chunks_prefix(0, 0), "[0/0 Chunks] ");
    assert_eq!(compose_chunks_prefix(12, 345), "[12/345 Chunks] ");
    let mut text = String::new();
    append_right_aligned(&mut text, 7, 3);
    text.push('|');
    append_right_aligned(&mut text, 1234, 3);
    text.push('|');
    append_right_aligned(&mut text, 0, 0);
    assert_eq!(text, "  7|1234|0");
}

#[test]
fn estimates_scale_the_size_and_rate_of_what_is_encoded() {
    let rate = FrameRate { numerator: 24, denominator: 1 };
    assert_eq!(estimate(1000, 0, 1000, 0, rate), None);
    assert_eq!(
        estimate(1_000_000, 240, 2400, 500, rate),
        Some(Estimates { bits_per_second: 800_000, estimated_size: 10_000_500 })
    );
    let film = FrameRate { numerator: 24000, denominator: 1001 };
    assert_eq!(
        estimate(1_000_000, 250, 1000, 0, film),
        Some(Estimates { bits_per_second: 767_232, estimated_size: 4_000_000 })
    );
    assert_eq!(
        estimate(7, 3, 10, 1, rate),
        Some(Estimates { bits_per_second: 448, estimated_size: 24 })
    );
    assert_eq!(
        estimate(1000, 10, 0, 5, rate),
        Some(Estimates { bits_per_second: 19200, estimated_size: 5 })
    );
}

#[test]
fn estimates_stop_at_the_highest_number() {
    let none = FrameRate { numerator: 24, denominator: 0 };
    assert_eq!(
        estimate(1000, 10, 1000, u64::MAX, none),
        Some(Estimates { bits_per_second: u64::MAX, estimated_size: u64::MAX })
    );
    let fast = FrameRate { numerator: u32::MAX, denominator: 1 };
    assert_eq!(
        estimate(u64::MAX, 1, usize::MAX, 0, fast),
        Some(Estimates { bits_per_second: u64::MAX, estimated_size: u64::MAX })
    );
}

#[test]
fn estimates_are_worded_with_rate_and_size() {
    let message =
        compose_estimates_message(Estimates { bits_per_second: 800_000, estimated_size: 1_500 });
    assert_eq!(message, ", 800.0 Kbps, est. 1.46 KiB");
    let message =
        compose_estimates_message(Estimates { bits_per_second: 767_250, estimated_size: 15 });
    assert_eq!(message, ", 767.3 Kbps, est. 15 B");
    let message =
        compose_estimates_message(Estimates { bits_per_second: 49, estimated_size: 1_500_000_000 });
    assert_eq!(message, ", 0.0 Kbps, est. 1.40 GiB");
    let message =
        compose_estimates_message(Estimates { bits_per_second: u64::MAX, estimated_size: 0 });
    assert_eq!(message, ", 18446744073709551.6 Kbps, est. 0 B");
}

#[test]
fn estimates_go_to_the_display_in_use() {
    let rate = FrameRate { numerator: 24, denominator: 1 };
    let mut ledger = DoneLedger::init(2400);
    let mut bars = no_bars();
    init_progress_bar(&mut bars, 2400, 0, Some((0, 10)));
    init_multi_progress_bar(&mut bars, 2400, 1, 0, (0, 10));
    assert_eq!(
        update_progress_bar_estimates(&mut bars, &ledger, rate, 2400, Verbosity::Normal, (0, 10)),
        None
    );
    assert_eq!(bars.bar.as_ref().unwrap().message, "");
    assert!(ledger.record("00000".to_string(), 240, 1_000_000));
    set_audio_size(&mut bars, 500);
    let found = Some(Estimates { bits_per_second: 800_000, estimated_size: 10_000_500 });
    assert_eq!(
        update_progress_bar_estimates(&mut bars, &ledger, rate, 2400, Verbosity::Quiet, (1, 10)),
        found
    );
    assert_eq!(bars.bar.as_ref().unwrap().message, "");
    assert_eq!(bars.multi.as_ref().unwrap()[1].message, "");
    assert_eq!(
        update_progress_bar_estimates(&mut bars, &ledger, rate, 2400, Verbosity::Normal, (1, 10)),
        found
    );
    assert_eq!(bars.bar.as_ref().unwrap().message, ", 800.0 Kbps, est. 9.54 MiB");
    assert_eq!(bars.bar.as_ref().unwrap().prefix, "[1/10 Chunks] ");
    assert_eq!(bars.multi.as_ref().unwrap()[1].message, "");
    assert_eq!(
        update_progress_bar_estimates(&mut bars, &ledger, rate, 2400, Verbosity::Verbose, (2, 10)),
        found
    );
    assert_eq!(bars.multi.as_ref().unwrap()[1].message, ", 800.0 Kbps, est. 9.54 MiB");
    assert_eq!(bars.multi.as_ref().unwrap()[1].prefix, "[2/10 Chunks] ");
    assert_eq!(bars.bar.as_ref().unwrap().prefix, "[1/10 Chunks] ");
}

#[test]
fn frames_for_rate_and_time_left() {
    assert_eq!(frames_since_resume(300, 250), 50);
    assert_eq!(frames_since_resume(250, 250), 0);
    assert_eq!(frames_since_resume(100, 250), 250);
    assert_eq!(frames_since_resume(0, 0), 0);
    assert_eq!(frames_left(1000, 250), 750);
    assert_eq!(frames_left(1000, 1000), 0);
    assert_eq!(frames_left(1000, 1001), 0);
    assert_eq!(compose_position(250, 1000), "250/1000");
    assert_eq!(compose_position(0, 0), "0/0");
}

#[test]
fn rate_is_rounded_to_a_tenth() {
    assert_eq!(compose_rate_and_size(0, "0 B"), ", 0.0 Kbps, est. 0 B");
    assert_eq!(compose_rate_and_size(49, "x"), ", 0.0 Kbps, est. x");
    assert_eq!(compose_rate_and_size(50, "x"), ", 0.1 Kbps, est. x");
    assert_eq!(compose_rate_and_size(1_949, ""), ", 1.9 Kbps, est. ");
    assert_eq!(compose_rate_and_size(1_950, ""), ", 2.0 Kbps, est. ");
    assert_eq!(compose_rate_and_size(123_456_789, "1 GiB"), ", 123456.8 Kbps, est. 1 GiB");
}
