use shareplay::Broadcast;
use shareplay::ChatServer;
use shareplay::DownloadStatus;
use shareplay::Effect;
use shareplay::Join;
use shareplay::JoinVoice;
use shareplay::Leave;
use shareplay::LeaveVoice;
use shareplay::PlaybackAction;
use shareplay::PlaylistEntry;
use shareplay::SharePlayDownloadResult;
use shareplay::SharePlayMetadataResult;
use shareplay::SharePlayPlaylistResult;

fn join(hub: &mut ChatServer, room: &str, conn: u64) {
    hub.join_room(Join {
        channel_id: room.to_string(),
        conn,
    });
}

fn join_call(hub: &mut ChatServer, room: &str, user: &str, session: &str) -> Vec<Effect> {
    hub.join_voice(JoinVoice {
        channel_id: room.to_string(),
        user_id: user.to_string(),
        session_id: session.to_string(),
    })
}

fn leave_call(hub: &mut ChatServer, room: &str, user: &str, session: &str) -> Vec<Effect> {
    hub.leave_voice(LeaveVoice {
        channel_id: room.to_string(),
        user_id: user.to_string(),
        session_id: session.to_string(),
    })
}

fn deliveries(effects: &[Effect]) -> Vec<(u64, String)> {
    effects
        .iter()
        .filter_map(|e| match e {
            Effect::Deliver { conn, payload } => Some((*conn, payload.clone())),
            _ => None,
        })
        .collect()
}

#[test]
fn broadcast_to_empty_room_is_a_no_op() {
    let hub = ChatServer::new();
    let effects = hub.broadcast(&Broadcast {
        channel_id: "nowhere".to_string(),
        payload: "{\"type\":\"typing\"}".to_string(),
    });
    assert!(effects.is_empty());
}

#[test]
fn broadcast_reaches_every_member_once() {
    let mut hub = ChatServer::new();
    join(&mut hub, "general", 1);
    join(&mut hub, "general", 2);
    join(&mut hub, "other", 3);
    let effects = hub.broadcast(&Broadcast {
        channel_id: "general".to_string(),
        payload: "hello".to_string(),
    });
    let d = deliveries(&effects);
    assert_eq!(d.len(), 2);
    assert_eq!(d[0], (1, "hello".to_string()));
    assert_eq!(d[1], (2, "hello".to_string()));
}

#[test]
fn rejoining_a_room_does_not_duplicate_membership() {
    let mut hub = ChatServer::new();
    join(&mut hub, "general", 1);
    join(&mut hub, "general", 1);
    let effects = hub.broadcast(&Broadcast {
        channel_id: "general".to_string(),
        payload: "x".to_string(),
    });
    assert_eq!(deliveries(&effects).len(), 1);
}

#[test]
fn leave_room_removes_the_connection() {
    let mut hub = ChatServer::new();
    join(&mut hub, "general", 1);
    join(&mut hub, "general", 2);
    hub.leave_room(Leave {
        channel_id: "general".to_string(),
        conn: 1,
        user_id: "alice".to_string(),
    });
    let effects = hub.broadcast(&Broadcast {
        channel_id: "general".to_string(),
        payload: "x".to_string(),
    });
    assert_eq!(deliveries(&effects), vec![(2, "x".to_string())]);
}

#[test]
fn join_voice_twice_emits_once_and_keeps_one_pair() {
    let mut hub = ChatServer::new();
    join(&mut hub, "room", 1);
    let first = join_call(&mut hub, "room", "alice", "s1");
    let d = deliveries(&first);
    assert_eq!(d.len(), 1);
    assert_eq!(
        d[0].1,
        "{\"type\":\"voice_joined\",\"channel_id\":\"room\",\"user_id\":\"alice\"}"
    );
    let second = join_call(&mut hub, "room", "alice", "s1");
    assert!(second.is_empty());
    let effects = hub.join_room(Join {
        channel_id: "room".to_string(),
        conn: 2,
    });
    let d = deliveries(&effects);
    assert_eq!(d.len(), 1);
    assert_eq!(
        d[0].1,
        "{\"type\":\"room_state\",\"voice_users\":[\"alice\"]}"
    );
}

#[test]
fn second_session_joins_silently_and_keeps_user_in_call() {
    let mut hub = ChatServer::new();
    join(&mut hub, "room", 1);
    let first = join_call(&mut hub, "room", "alice", "s1");
    assert_eq!(deliveries(&first).len(), 1);
    let second = join_call(&mut hub, "room", "alice", "s2");
    assert!(second.is_empty());
    let one_left = leave_call(&mut hub, "room", "alice", "s1");
    assert!(one_left.is_empty());
    let last_left = leave_call(&mut hub, "room", "alice", "s2");
    let d = deliveries(&last_left);
    assert_eq!(d.len(), 1);
    assert_eq!(
        d[0].1,
        "{\"type\":\"voice_left\",\"channel_id\":\"room\",\"user_id\":\"alice\"}"
    );
}

#[test]
fn leaving_an_unknown_pair_is_a_no_op() {
    let mut hub = ChatServer::new();
    join(&mut hub, "room", 1);
    let effects = leave_call(&mut hub, "room", "ghost", "s9");
    assert!(effects.is_empty());
}

#[test]
fn playback_action_creates_state_lazily_and_broadcasts() {
    let mut hub = ChatServer::new();
    join(&mut hub, "room", 7);
    let effects = hub.playback_action("room", PlaybackAction::Play, 1_000);
    let d = deliveries(&effects);
    assert_eq!(d.len(), 1);
    assert!(d[0].1.contains("\"type\":\"shareplay_update\""));
    assert!(d[0].1.contains("\"status\":\"playing\""));
    let repeated = hub.playback_action("room", PlaybackAction::Play, 2_000);
    assert!(repeated.is_empty());
}

#[test]
fn shareplay_add_starts_at_most_two_acquisitions() {
    let mut hub = ChatServer::new();
    join(&mut hub, "room", 7);
    let mut job_count = 0;
    for k in 0..4 {
        let (_id, effects) = hub.shareplay_add("room", format!("search {}", k));
        job_count += effects
            .iter()
            .filter(|e| matches!(e, Effect::StartAcquisition { .. }))
            .count();
    }
    assert_eq!(job_count, 2);
}

#[test]
fn acquisition_results_flow_to_ready_and_refill_slots() {
    let mut hub = ChatServer::new();
    join(&mut hub, "room", 7);
    let mut ids = Vec::new();
    for k in 0..3 {
        let (id, _) = hub.shareplay_add("room", format!("song {}", k));
        ids.push(id);
    }
    let effects = hub.handle_metadata_result(SharePlayMetadataResult {
        channel_id: "room".to_string(),
        id: ids[0].clone(),
        success: true,
        title: "Song Zero".to_string(),
        duration: 200,
        thumbnail_path: None,
        error: None,
    });
    assert_eq!(deliveries(&effects).len(), 1);
    let effects = hub.handle_download_result(SharePlayDownloadResult {
        channel_id: "room".to_string(),
        id: ids[0].clone(),
        success: true,
        title: "Song Zero".to_string(),
        file_path: Some("temp/zero.opus".to_string()),
        thumbnail_path: None,
        duration: 200,
        error: None,
    });
    let started: Vec<&Effect> = effects
        .iter()
        .filter(|e| matches!(e, Effect::StartAcquisition { .. }))
        .collect();
    assert_eq!(started.len(), 1);
    match started[0] {
        Effect::StartAcquisition { room_id, item_id, url } => {
            assert_eq!(room_id, "room");
            assert_eq!(item_id, &ids[2]);
            assert_eq!(url, "song 2");
        }
        _ => unreachable!(),
    }
    assert_eq!(
        hub.song_location(&ids[0]).as_deref(),
        Some("temp/zero.opus")
    );
}

#[test]
fn failed_download_records_error_and_frees_the_slot() {
    let mut hub = ChatServer::new();
    let (id, _) = hub.shareplay_add("room", "bad song".to_string());
    let effects = hub.handle_download_result(SharePlayDownloadResult {
        channel_id: "room".to_string(),
        id: id.clone(),
        success: false,
        title: String::new(),
        file_path: None,
        thumbnail_path: None,
        duration: 0,
        error: Some("404".to_string()),
    });
    assert!(effects.is_empty());
    assert!(hub.song_location(&id).is_none());
}

#[test]
fn stale_results_for_unknown_rooms_are_discarded() {
    let mut hub = ChatServer::new();
    let effects = hub.handle_metadata_result(SharePlayMetadataResult {
        channel_id: "gone".to_string(),
        id: "whatever".to_string(),
        success: true,
        title: "T".to_string(),
        duration: 1,
        thumbnail_path: None,
        error: None,
    });
    assert!(effects.is_empty());
}

#[test]
fn playlist_result_expands_placeholder_into_pending_items() {
    let mut hub = ChatServer::new();
    join(&mut hub, "room", 7);
    let (placeholder, _) =
        hub.shareplay_add("room", "https://youtube.com/playlist?list=P".to_string());
    let entries: Vec<PlaylistEntry> = (0..5)
        .map(|k| PlaylistEntry {
            url: format!("https://youtube.com/watch?v={}", k),
            title: format!("Track {}", k),
            duration_seconds: k,
        })
        .collect();
    let effects = hub.handle_playlist_result(SharePlayPlaylistResult {
        channel_id: "room".to_string(),
        placeholder_id: placeholder.clone(),
        entries,
    });
    assert!(hub.song_location(&placeholder).is_none());
    let jobs = effects
        .iter()
        .filter(|e| matches!(e, Effect::StartAcquisition { .. }))
        .count();
    assert_eq!(jobs, 2);
    let update = deliveries(&effects);
    assert_eq!(update.len(), 1);
    assert_eq!(update[0].1.matches("\"download_status\":\"grabbing\"").count(), 2);
    assert_eq!(update[0].1.matches("\"download_status\":\"pending\"").count(), 3);
}

#[test]
fn last_voice_leave_tears_down_playback_and_files() {
    let mut hub = ChatServer::new();
    join(&mut hub, "room", 1);
    join_call(&mut hub, "room", "alice", "s1");
    let (id, _) = hub.shareplay_add("room", "a song".to_string());
    hub.handle_download_result(SharePlayDownloadResult {
        channel_id: "room".to_string(),
        id: id.clone(),
        success: true,
        title: "A Song".to_string(),
        file_path: Some(format!("temp/{}.opus", id)),
        thumbnail_path: Some(format!("temp/{}_thumb.jpg", id)),
        duration: 99,
        error: None,
    });
    assert!(hub.song_location(&id).is_some());
    assert!(hub.thumbnail_location(&id).is_some());
    let effects = leave_call(&mut hub, "room", "alice", "s1");
    let payloads = deliveries(&effects);
    assert_eq!(payloads.len(), 2);
    assert!(payloads[0].1.contains("\"type\":\"voice_left\""));
    assert!(payloads[1].1.contains("\"type\":\"shareplay_cleared\""));
    let mut deleted_files = Vec::new();
    let mut deleted_prefixes = Vec::new();
    for e in &effects {
        match e {
            Effect::DeleteFile { path } => deleted_files.push(path.clone()),
            Effect::DeleteByPrefix { prefix } => deleted_prefixes.push(prefix.clone()),
            _ => {}
        }
    }
    assert!(deleted_files.contains(&format!("temp/{}.opus", id)));
    assert!(deleted_files.contains(&format!("temp/{}_thumb.jpg", id)));
    assert_eq!(deleted_prefixes, vec![id.clone()]);
    assert!(hub.song_location(&id).is_none());
    assert!(hub.thumbnail_location(&id).is_none());
}

#[test]
fn current_track_id_follows_the_selection() {
    let mut hub = ChatServer::new();
    let (id, _) = hub.shareplay_add("room", "a".to_string());
    assert_eq!(hub.current_track_id("room"), Some(id));
    assert!(hub.current_track_id("other").is_none());
}

#[test]
fn connect_registers_and_assigns_a_session_id() {
    let mut hub = ChatServer::new();
    let (session, effects) = hub.connect("alice".to_string(), 42);
    assert_eq!(session.len(), 36);
    let d = deliveries(&effects);
    assert_eq!(d.len(), 1);
    assert_eq!(d[0].0, 42);
    assert_eq!(
        d[0].1,
        format!(
            "{{\"type\":\"connection_metadata\",\"session_id\":\"{}\"}}",
            session
        )
    );
}

#[test]
fn direct_signal_hits_one_session_or_all() {
    let mut hub = ChatServer::new();
    hub.register("alice".to_string(), "s1".to_string(), 1);
    hub.register("alice".to_string(), "s2".to_string(), 2);
    let one = hub.direct_signal(
        "alice",
        Some(&"s2".to_string()),
        &"offer".to_string(),
    );
    assert_eq!(deliveries(&one), vec![(2, "offer".to_string())]);
    let all = hub.direct_signal("alice", None, &"offer".to_string());
    assert_eq!(
        deliveries(&all),
        vec![(1, "offer".to_string()), (2, "offer".to_string())]
    );
    let none = hub.direct_signal("bob", None, &"offer".to_string());
    assert!(none.is_empty());
}

#[test]
fn notify_users_skips_sessions_watching_the_room() {
    let mut hub = ChatServer::new();
    hub.register("alice".to_string(), "s1".to_string(), 1);
    hub.register("alice".to_string(), "s2".to_string(), 2);
    hub.register("bob".to_string(), "s3".to_string(), 3);
    join(&mut hub, "general", 2);
    let users = vec!["alice".to_string(), "bob".to_string()];
    let effects = hub.notify_users(
        &users,
        &"ping".to_string(),
        Some(&"general".to_string()),
    );
    let mut conns: Vec<u64> = deliveries(&effects).iter().map(|d| d.0).collect();
    conns.sort_unstable();
    assert_eq!(conns, vec![1, 3]);
}

#[test]
fn unregister_drops_the_user_with_the_last_session() {
    let mut hub = ChatServer::new();
    hub.register("alice".to_string(), "s1".to_string(), 1);
    hub.register("alice".to_string(), "s2".to_string(), 2);
    hub.unregister("alice", "s1");
    let still = hub.direct_signal("alice", None, &"x".to_string());
    assert_eq!(deliveries(&still), vec![(2, "x".to_string())]);
    hub.unregister("alice", "s2");
    let gone = hub.direct_signal("alice", None, &"x".to_string());
    assert!(gone.is_empty());
}

#[test]
fn slot_cap_holds_across_a_whole_acquisition_run() {
    let mut hub = ChatServer::new();
    let mut ids = Vec::new();
    for k in 0..6 {
        let (id, _) = hub.shareplay_add("room", format!("song {}", k));
        ids.push(id);
    }
    for id in &ids {
        let active = max_room_active(&hub);
        assert!(active <= 2, "more than two active downloads");
        hub.handle_download_result(SharePlayDownloadResult {
            channel_id: "room".to_string(),
            id: id.clone(),
            success: true,
            title: "t".to_string(),
            file_path: Some(format!("temp/{}.opus", id)),
            thumbnail_path: None,
            duration: 1,
            error: None,
        });
    }
    assert_eq!(max_room_active(&hub), 0);
}

fn max_room_active(hub: &ChatServer) -> usize {
    hub.playback
        .iter()
        .map(|e| {
            e.state
                .queue
                .iter()
                .filter(|i| {
                    i.download_status == DownloadStatus::Grabbing
                        || i.download_status == DownloadStatus::Downloading
                })
                .count()
        })
        .max()
        .unwrap_or(0)
}

#[test]
fn remove_track_emits_update_and_file_deletions() {
    let mut hub = ChatServer::new();
    join(&mut hub, "room", 1);
    let (id, _) = hub.shareplay_add("room", "a".to_string());
    hub.handle_download_result(SharePlayDownloadResult {
        channel_id: "room".to_string(),
        id: id.clone(),
        success: true,
        title: "A".to_string(),
        file_path: Some(format!("temp/{}.opus", id)),
        thumbnail_path: None,
        duration: 9,
        error: None,
    });
    let effects = hub.shareplay_remove("room", 0, 1_000);
    let d = deliveries(&effects);
    assert_eq!(d.len(), 1);
    assert!(d[0].1.contains("\"queue\":[]"));
    let mut files = Vec::new();
    let mut prefixes = Vec::new();
    for e in &effects {
        match e {
            Effect::DeleteFile { path } => files.push(path.clone()),
            Effect::DeleteByPrefix { prefix } => prefixes.push(prefix.clone()),
            _ => {}
        }
    }
    assert_eq!(files, vec![format!("temp/{}.opus", id)]);
    assert_eq!(prefixes, vec![id.clone()]);
    assert!(hub.song_location(&id).is_none());
    let out_of_range = hub.shareplay_remove("room", 5, 2_000);
    assert!(out_of_range.is_empty());
}

#[test]
fn playback_actions_drive_the_clock_through_the_hub() {
    let mut hub = ChatServer::new();
    join(&mut hub, "room", 1);
    hub.shareplay_add("room", "a".to_string());
    hub.shareplay_add("room", "b".to_string());
    let seek = hub.playback_action(
        "room",
        PlaybackAction::Seek { position_ms: 5_000 },
        1_000,
    );
    assert!(deliveries(&seek)[0].1.contains("\"position_ms\":5000"));
    let track = hub.playback_action("room", PlaybackAction::SetTrack { index: 1 }, 2_000);
    assert!(deliveries(&track)[0].1.contains("\"current_index\":1"));
    let bad_track = hub.playback_action("room", PlaybackAction::SetTrack { index: 9 }, 3_000);
    assert!(bad_track.is_empty());
    let toggled = hub.playback_action("room", PlaybackAction::ToggleRepeat, 4_000);
    assert!(deliveries(&toggled)[0].1.contains("\"repeat_mode\":\"all\""));
}

#[test]
fn roster_lists_a_two_session_user_once() {
    let mut hub = ChatServer::new();
    join_call(&mut hub, "room", "alice", "s1");
    join_call(&mut hub, "room", "alice", "s2");
    join_call(&mut hub, "room", "bob", "s3");
    let effects = hub.join_room(Join {
        channel_id: "room".to_string(),
        conn: 9,
    });
    let d = deliveries(&effects);
    assert_eq!(d.len(), 1);
    assert_eq!(
        d[0].1,
        "{\"type\":\"room_state\",\"voice_users\":[\"alice\",\"bob\"]}"
    );
}
