use shareplay::DownloadStatus;
use shareplay::PlayStatus;
use shareplay::PlaylistEntry;
use shareplay::RepeatMode;
use shareplay::SharePlayState;

fn three_track_state(now: u64) -> SharePlayState {
    let mut s = SharePlayState::new();
    s.add_item("https://youtube.com/watch?v=a".to_string());
    s.add_item("https://youtube.com/watch?v=b".to_string());
    s.add_item("https://youtube.com/watch?v=c".to_string());
    s.set_track(0, now);
    s
}

#[test]
fn new_state_is_empty_and_paused() {
    let s = SharePlayState::new();
    assert_eq!(s.queue.len(), 0);
    assert!(s.current_index.is_none());
    assert!(s.status == PlayStatus::Paused);
    assert!(s.start_time.is_none());
    assert_eq!(s.current_position_ms, 0);
    assert!(s.repeat_mode == RepeatMode::Off);
}

#[test]
fn add_item_appends_pending_and_selects_head() {
    let mut s = SharePlayState::new();
    let id = s.add_item("some search".to_string());
    assert_eq!(id.len(), 36);
    assert_eq!(s.queue.len(), 1);
    assert_eq!(s.queue[0].id, id);
    assert_eq!(s.queue[0].url, "some search");
    assert_eq!(s.queue[0].title, "Grabbing...");
    assert!(s.queue[0].download_status == DownloadStatus::Pending);
    assert_eq!(s.queue[0].duration_seconds, 0);
    assert_eq!(s.current_index, Some(0));
}

#[test]
fn paused_position_is_stable() {
    let mut s = SharePlayState::new();
    s.seek(42_000, 1_000);
    assert!(s.status == PlayStatus::Paused);
    let p1 = s.effective_position(5_000);
    let p2 = s.effective_position(900_000);
    assert_eq!(p1, 42_000);
    assert_eq!(p1, p2);
}

#[test]
fn playing_position_advances_with_the_clock() {
    let mut s = SharePlayState::new();
    s.seek(10_000, 1_000);
    s.play(50_000);
    assert_eq!(s.effective_position(50_000), 10_000);
    assert_eq!(s.effective_position(53_500), 13_500);
}

#[test]
fn play_then_pause_at_once_keeps_position() {
    let mut s = SharePlayState::new();
    s.seek(7_500, 1_000);
    let now = 90_000;
    assert!(s.play(now));
    assert!(s.pause(now));
    assert_eq!(s.current_position_ms, 7_500);
    assert!(s.status == PlayStatus::Paused);
    assert!(s.start_time.is_none());
}

#[test]
fn play_and_pause_are_idempotent() {
    let mut s = SharePlayState::new();
    assert!(!s.pause(10));
    assert!(s.play(10));
    assert!(!s.play(20));
    assert!(s.pause(30));
    assert!(!s.pause(40));
}

#[test]
fn remove_current_track_keeps_index_and_restarts() {
    let now = 1_000;
    let mut s = three_track_state(now);
    s.set_track(1, now);
    assert!(s.status == PlayStatus::Playing);
    let id_c = s.queue[2].id.clone();
    let removed = s.remove_item(1, 2_000);
    assert!(removed.is_some());
    assert_eq!(s.queue.len(), 2);
    assert_eq!(s.current_index, Some(1));
    assert_eq!(s.queue[1].id, id_c);
    assert_eq!(s.current_position_ms, 0);
    assert!(s.status == PlayStatus::Playing);
    assert_eq!(s.start_time, Some(2_000));
}

#[test]
fn remove_last_item_clears_selection_and_stops() {
    let mut s = SharePlayState::new();
    s.add_item("only".to_string());
    s.set_track(0, 5);
    let removed = s.remove_item(0, 6);
    assert!(removed.is_some());
    assert_eq!(s.queue.len(), 0);
    assert!(s.current_index.is_none());
    assert!(s.status == PlayStatus::Paused);
    assert!(s.start_time.is_none());
}

#[test]
fn remove_earlier_item_shifts_selection_down() {
    let now = 1_000;
    let mut s = three_track_state(now);
    s.set_track(2, now);
    s.remove_item(0, 2_000);
    assert_eq!(s.current_index, Some(1));
    assert_eq!(s.current_position_ms, 0);
}

#[test]
fn remove_out_of_range_is_a_no_op() {
    let now = 1_000;
    let mut s = three_track_state(now);
    let before_len = s.queue.len();
    let removed = s.remove_item(17, 2_000);
    assert!(removed.is_none());
    assert_eq!(s.queue.len(), before_len);
    assert_eq!(s.current_index, Some(0));
}

#[test]
fn next_twice_within_debounce_advances_once() {
    let now = 10_000;
    let mut s = three_track_state(now);
    assert!(s.next(20_000));
    assert_eq!(s.current_index, Some(1));
    assert!(!s.next(20_400));
    assert_eq!(s.current_index, Some(1));
    assert!(s.next(21_500));
    assert_eq!(s.current_index, Some(2));
}

#[test]
fn next_off_repeat_stops_at_end_and_resets_to_start() {
    let now = 10_000;
    let mut s = three_track_state(now);
    s.set_track(2, now);
    assert!(s.next(20_000));
    assert_eq!(s.current_index, Some(0));
    assert!(s.status == PlayStatus::Paused);
    assert!(s.start_time.is_none());
    assert_eq!(s.current_position_ms, 0);
}

#[test]
fn next_repeat_all_wraps_around() {
    let now = 10_000;
    let mut s = three_track_state(now);
    s.toggle_repeat();
    assert!(s.repeat_mode == RepeatMode::All);
    s.set_track(2, now);
    assert!(s.next(20_000));
    assert_eq!(s.current_index, Some(0));
    assert!(s.status == PlayStatus::Playing);
}

#[test]
fn next_repeat_one_restarts_current() {
    let now = 10_000;
    let mut s = three_track_state(now);
    s.toggle_repeat();
    s.toggle_repeat();
    assert!(s.repeat_mode == RepeatMode::One);
    s.set_track(1, now);
    s.seek(9_000, now);
    assert!(s.next(20_000));
    assert_eq!(s.current_index, Some(1));
    assert_eq!(s.current_position_ms, 0);
    assert_eq!(s.start_time, Some(20_000));
}

#[test]
fn prev_restarts_after_three_seconds() {
    let now = 10_000;
    let mut s = three_track_state(now);
    s.set_track(1, now);
    assert!(s.prev(14_000));
    assert_eq!(s.current_index, Some(1));
    assert_eq!(s.current_position_ms, 0);
}

#[test]
fn prev_goes_back_within_three_seconds() {
    let now = 10_000;
    let mut s = three_track_state(now);
    s.set_track(1, now);
    assert!(s.prev(11_000));
    assert_eq!(s.current_index, Some(0));
}

#[test]
fn prev_at_start_wraps_only_under_repeat_all() {
    let now = 10_000;
    let mut s = three_track_state(now);
    assert!(s.prev(now));
    assert_eq!(s.current_index, Some(0));
    s.toggle_repeat();
    assert!(s.prev(now));
    assert_eq!(s.current_index, Some(2));
}

#[test]
fn toggle_repeat_cycles_off_all_one() {
    let mut s = SharePlayState::new();
    assert!(s.repeat_mode == RepeatMode::Off);
    s.toggle_repeat();
    assert!(s.repeat_mode == RepeatMode::All);
    s.toggle_repeat();
    assert!(s.repeat_mode == RepeatMode::One);
    s.toggle_repeat();
    assert!(s.repeat_mode == RepeatMode::Off);
}

#[test]
fn schedule_caps_active_downloads_at_two() {
    let mut s = SharePlayState::new();
    for k in 0..5 {
        s.add_item(format!("https://youtube.com/watch?v={}", k));
    }
    let jobs = s.schedule();
    assert_eq!(jobs, vec![0, 1]);
    let active = s
        .queue
        .iter()
        .filter(|i| {
            i.download_status == DownloadStatus::Grabbing
                || i.download_status == DownloadStatus::Downloading
        })
        .count();
    assert_eq!(active, 2);
    assert!(s.queue[2].download_status == DownloadStatus::Pending);
    let again = s.schedule();
    assert!(again.is_empty());
}

#[test]
fn metadata_success_moves_grabbing_to_downloading() {
    let mut s = SharePlayState::new();
    let id = s.add_item("x".to_string());
    s.schedule();
    assert!(s.queue[0].download_status == DownloadStatus::Grabbing);
    let changed = s.update_item_metadata(&id, "A Title".to_string(), 180, None);
    assert!(changed);
    assert!(s.queue[0].download_status == DownloadStatus::Downloading);
    assert_eq!(s.queue[0].title, "A Title");
    assert_eq!(s.queue[0].duration_seconds, 180);
}

#[test]
fn metadata_for_unknown_id_is_discarded() {
    let mut s = SharePlayState::new();
    s.add_item("x".to_string());
    s.schedule();
    let changed = s.update_item_metadata("not-an-id", "T".to_string(), 1, None);
    assert!(!changed);
    assert_eq!(s.queue[0].title, "Grabbing...");
}

#[test]
fn metadata_for_pending_item_is_discarded_as_stale() {
    let mut s = SharePlayState::new();
    let id = s.add_item("x".to_string());
    let changed = s.update_item_metadata(&id, "T".to_string(), 1, None);
    assert!(!changed);
    assert!(s.queue[0].download_status == DownloadStatus::Pending);
}

#[test]
fn download_success_makes_item_ready() {
    let mut s = SharePlayState::new();
    let id = s.add_item("x".to_string());
    s.schedule();
    let changed = s.update_item_success(
        &id,
        "Final Title".to_string(),
        "temp/file.opus".to_string(),
        Some("temp/file_thumb.jpg".to_string()),
        240,
    );
    assert!(changed);
    assert!(s.queue[0].download_status == DownloadStatus::Ready);
    assert_eq!(s.queue[0].file_path.as_deref(), Some("temp/file.opus"));
    assert_eq!(
        s.queue[0].thumbnail_path.as_deref(),
        Some("temp/file_thumb.jpg")
    );
    assert_eq!(s.queue[0].duration_seconds, 240);
}

#[test]
fn download_failure_records_the_error() {
    let mut s = SharePlayState::new();
    let id = s.add_item("x".to_string());
    s.schedule();
    let changed = s.update_item_error(&id, "resolver exploded".to_string());
    assert!(changed);
    assert!(s.queue[0].download_status == DownloadStatus::Error);
    assert_eq!(s.queue[0].title, "Error loading song");
    assert_eq!(s.queue[0].download_error.as_deref(), Some("resolver exploded"));
}

#[test]
fn playlist_replaces_placeholder_with_pending_items() {
    let mut s = SharePlayState::new();
    let placeholder = s.add_item("https://youtube.com/playlist?list=P".to_string());
    s.schedule();
    let entries: Vec<PlaylistEntry> = (0..5)
        .map(|k| PlaylistEntry {
            url: format!("https://youtube.com/watch?v={}", k),
            title: format!("Track {}", k),
            duration_seconds: 100 + k,
        })
        .collect();
    let changed = s.replace_with_playlist(&placeholder, &entries);
    assert!(changed);
    assert_eq!(s.queue.len(), 5);
    for (k, item) in s.queue.iter().enumerate() {
        assert!(item.download_status == DownloadStatus::Pending);
        assert_eq!(item.title, format!("Track {}", k));
        assert_eq!(item.duration_seconds, 100 + k as u64);
        assert_ne!(item.id, placeholder);
    }
}

#[test]
fn playlist_with_unknown_placeholder_is_discarded() {
    let mut s = SharePlayState::new();
    s.add_item("a".to_string());
    let entries = vec![PlaylistEntry {
        url: "u".to_string(),
        title: "t".to_string(),
        duration_seconds: 1,
    }];
    let changed = s.replace_with_playlist("missing", &entries);
    assert!(!changed);
    assert_eq!(s.queue.len(), 1);
}
