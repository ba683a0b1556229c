use shareplay::chat_message_payload;
use shareplay::connection_metadata_payload;
use shareplay::room_state_payload;
use shareplay::shareplay_cleared_payload;
use shareplay::shareplay_update_payload;
use shareplay::typing_payload;
use shareplay::voice_joined_payload;
use shareplay::voice_left_payload;
use shareplay::webrtc_signal_payload;
use shareplay::DownloadStatus;
use shareplay::PlayStatus;
use shareplay::QueueItem;
use shareplay::RepeatMode;
use shareplay::SharePlayState;

#[test]
fn voice_event_payloads_are_exact() {
    assert_eq!(
        voice_joined_payload("room-1", "alice"),
        "{\"type\":\"voice_joined\",\"channel_id\":\"room-1\",\"user_id\":\"alice\"}"
    );
    assert_eq!(
        voice_left_payload("room-1", "alice"),
        "{\"type\":\"voice_left\",\"channel_id\":\"room-1\",\"user_id\":\"alice\"}"
    );
    assert_eq!(
        shareplay_cleared_payload("room-1"),
        "{\"type\":\"shareplay_cleared\",\"channel_id\":\"room-1\"}"
    );
    assert_eq!(
        connection_metadata_payload("abc-def"),
        "{\"type\":\"connection_metadata\",\"session_id\":\"abc-def\"}"
    );
}

#[test]
fn chat_message_escapes_embedded_quotes_and_newlines() {
    let payload = chat_message_payload("room", "alice", "say \"hi\"\nback\\slash\ttab");
    assert_eq!(
        payload,
        "{\"type\":\"chat_message\",\"channel_id\":\"room\",\"user_id\":\"alice\",\
         \"content\":\"say \\\"hi\\\"\\nback\\\\slash\\ttab\"}"
    );
}

#[test]
fn typing_payload_carries_the_flag() {
    assert_eq!(
        typing_payload("room", "bob", true),
        "{\"type\":\"typing\",\"channel_id\":\"room\",\"user_id\":\"bob\",\"started\":true}"
    );
    assert_eq!(
        typing_payload("room", "bob", false),
        "{\"type\":\"typing\",\"channel_id\":\"room\",\"user_id\":\"bob\",\"started\":false}"
    );
}

#[test]
fn webrtc_signal_embeds_data_verbatim() {
    assert_eq!(
        webrtc_signal_payload("room", "alice", "{\"sdp\":\"v=0\"}"),
        "{\"type\":\"webrtc_signal\",\"channel_id\":\"room\",\"from_user_id\":\"alice\",\
         \"data\":{\"sdp\":\"v=0\"}}"
    );
}

#[test]
fn room_state_lists_the_roster_in_order() {
    assert_eq!(
        room_state_payload(&vec![]),
        "{\"type\":\"room_state\",\"voice_users\":[]}"
    );
    assert_eq!(
        room_state_payload(&vec!["alice".to_string(), "bob".to_string()]),
        "{\"type\":\"room_state\",\"voice_users\":[\"alice\",\"bob\"]}"
    );
}

#[test]
fn shareplay_update_payload_is_exact_for_a_small_state() {
    let state = SharePlayState {
        queue: vec![QueueItem {
            id: "id-1".to_string(),
            url: "https://youtu.be/x".to_string(),
            title: "A \"Song\"".to_string(),
            file_path: Some("temp/id-1.opus".to_string()),
            thumbnail_path: None,
            download_error: None,
            duration_seconds: 205,
            download_status: DownloadStatus::Ready,
        }],
        current_index: Some(0),
        status: PlayStatus::Playing,
        start_time: Some(1700000000000),
        current_position_ms: 15500,
        repeat_mode: RepeatMode::All,
        last_auto_next: None,
    };
    let payload = shareplay_update_payload("room-9", &state);
    assert_eq!(
        payload,
        "{\"type\":\"shareplay_update\",\"channel_id\":\"room-9\",\"queue\":[\
         {\"id\":\"id-1\",\"url\":\"https://youtu.be/x\",\"title\":\"A \\\"Song\\\"\",\
         \"file_path\":\"temp/id-1.opus\",\"thumbnail_path\":null,\"download_error\":null,\
         \"duration_seconds\":205,\"download_status\":\"ready\"}],\
         \"current_index\":0,\"status\":\"playing\",\"start_time_ms\":1700000000000,\
         \"position_ms\":15500,\"repeat_mode\":\"all\"}"
    );
}

#[test]
fn shareplay_update_payload_for_empty_paused_state() {
    let state = SharePlayState::new();
    assert_eq!(
        shareplay_update_payload("r", &state),
        "{\"type\":\"shareplay_update\",\"channel_id\":\"r\",\"queue\":[],\
         \"current_index\":null,\"status\":\"paused\",\"start_time_ms\":null,\
         \"position_ms\":0,\"repeat_mode\":\"off\"}"
    );
}
