use ascii_art::config::{Charset, Resolution};
use ascii_art::frame::GrayFrame;
use ascii_art::playback::{PlaybackAction, VideoPlayer};
use ascii_art::retime::Retimer;
use ascii_art::video_processing::{
    process_frames_grayscale, process_frames_grayscale_parallel, process_frames_rgb,
    process_frames_rgb_parallel,
};
use ascii_art::frame::RgbFrame;

#[test]
fn retiming_thirty_to_ten_keeps_every_third_frame() {
    // source 30 fps, target 10 fps: of 10 decoded frames exactly
    // floor(10 / 3) = 3 are emitted, the 3rd, 6th and 9th.
    let mut r = Retimer::new(30, 1, 10);
    let mut kept: Vec<usize> = Vec::new();
    for i in 0..10 {
        if r.note_frame() {
            kept.push(i);
        }
    }
    assert_eq!(kept, vec![2, 5, 8]);
}

#[test]
fn retiming_never_emits_twice_in_a_row_when_decimating() {
    let mut r = Retimer::new(30, 1, 10);
    let mut last_emit: Option<usize> = None;
    for i in 0..100 {
        if r.note_frame() {
            if let Some(prev) = last_emit {
                assert!(i - prev >= 3, "emitted {} too soon after {}", i, prev);
            }
            last_emit = Some(i);
        }
    }
}

#[test]
fn retiming_rational_source_rate() {
    // source 30000/1001 fps (about 29.97), target 10: threshold is reached
    // once count * 1001 * 10 >= 30000, so again every third frame.
    let mut r = Retimer::new(30000, 1001, 10);
    let mut kept: u32 = 0;
    for _ in 0..30 {
        if r.note_frame() {
            kept += 1;
        }
    }
    assert_eq!(kept, 10);
}

#[test]
fn retiming_target_at_or_above_source_keeps_everything() {
    let mut r = Retimer::new(30, 1, 30);
    for _ in 0..10 {
        assert!(r.note_frame());
    }
}

#[test]
fn playback_index_follows_the_wall_clock() {
    // Five frames at 5 fps: each slot lasts 200 ms, so at 650 ms the due
    // index is floor(650 / 200) = 3; past 1000 ms the sequence restarts and
    // the index returns to 0.
    let frames: Vec<String> = (0..5).map(|i| format!("frame{}", i)).collect();
    let mut p = VideoPlayer::new(frames, 5);
    assert_eq!(p.poll(0), PlaybackAction::Draw(0));
    assert_eq!(p.poll(650), PlaybackAction::Draw(3));
    assert_eq!(p.poll(650), PlaybackAction::Wait);
    assert_eq!(p.poll(1000), PlaybackAction::Restart);
    assert_eq!(p.poll(10), PlaybackAction::Draw(0));
    assert_eq!(p.frame(3).as_str(), "frame3");
    assert_eq!(p.len(), 5);
}

#[test]
fn playback_skips_to_the_current_slot_when_lagging() {
    let frames: Vec<String> = (0..10).map(|i| format!("f{}", i)).collect();
    let mut p = VideoPlayer::new(frames, 5);
    assert_eq!(p.poll(10), PlaybackAction::Draw(0));
    // The clock jumped over slots 1..=3; they are dropped, never queued.
    assert_eq!(p.poll(810), PlaybackAction::Draw(4));
}

#[test]
fn playback_empty_sequence_only_restarts() {
    let mut p = VideoPlayer::new(Vec::new(), 5);
    assert_eq!(p.poll(0), PlaybackAction::Restart);
    assert_eq!(p.poll(12345), PlaybackAction::Restart);
}

#[test]
fn parallel_render_matches_sequential_order() {
    // The same frames rendered on one thread and across the worker pool give
    // identical sequences, in input order.
    let mut frames = Vec::new();
    for k in 0..6u8 {
        let data: Vec<u8> = (0..16u8).map(|i| i.wrapping_mul(17).wrapping_add(k)).collect();
        frames.push(GrayFrame::new(4, 4, data));
    }
    let seq = process_frames_grayscale(&frames, Resolution::new(1, 1), &Charset::Simple);
    let par = process_frames_grayscale_parallel(&frames, Resolution::new(1, 1), &Charset::Simple);
    assert_eq!(seq.len(), 6);
    assert_eq!(seq, par);
    // Distinct frames give distinct rows, so an order mix-up would show.
    assert_ne!(seq[0], seq[5]);
}

#[test]
fn parallel_render_matches_sequential_order_rgb() {
    let mut frames = Vec::new();
    for k in 0..4u8 {
        let data: Vec<u8> = (0..48u8).map(|i| i.wrapping_mul(5).wrapping_add(k * 40)).collect();
        frames.push(RgbFrame::new(4, 4, data));
    }
    let seq = process_frames_rgb(&frames, Resolution::new(1, 1), &Charset::Simple);
    let par = process_frames_rgb_parallel(&frames, Resolution::new(1, 1), &Charset::Simple);
    assert_eq!(seq.len(), 4);
    assert_eq!(seq, par);
}

#[test]
fn render_all_of_empty_sequence_is_empty() {
    let frames: Vec<GrayFrame> = Vec::new();
    let seq = process_frames_grayscale(&frames, Resolution::new(1, 2), &Charset::Simple);
    assert!(seq.is_empty());
    let par = process_frames_grayscale_parallel(&frames, Resolution::new(1, 2), &Charset::Simple);
    assert!(par.is_empty());
}
