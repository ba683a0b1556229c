//! Room-based presence and broadcast hub with a synchronized group-media
//! playback engine.
//!
//! The crate models the real-time core of a chat server as a single logical
//! actor: connection registry, room broadcaster, voice presence tracker,
//! group playback state machine, and the download orchestrator that feeds
//! the queue. All mutation happens through verified methods; slow outside
//! work (the media resolver, file I/O, delivery on sockets) is described by
//! effect values that the surrounding runtime carries out.

mod api;
mod external;
mod hub;
mod playback;
mod protocol;
mod resolve;

pub use api::AdminPasswordReq;
pub use api::ApiError;
pub use api::AuthResp;
pub use api::AuthUser;
pub use api::ChangePasswordReq;
pub use api::Claims;
pub use api::Config;
pub use api::CreateChannelReq;
pub use api::CreateRoleReq;
pub use api::EditMessageReq;
pub use api::Emoji;
pub use api::HeartbeatReq;
pub use api::ListQuery;
pub use api::LoginReq;
pub use api::LogoutReq;
pub use api::ModifyMembersReq;
pub use api::PostMessageReq;
pub use api::RefreshReq;
pub use api::RegisterReq;
pub use api::SavedFile;
pub use api::UpdateMeReq;
pub use api::UpdateUserReq;
pub use api::UpdateUserRolesReq;
pub use api::UploadResp;
pub use api::UsersQuery;

pub use playback::active_count;
pub use playback::add_rel;
pub use playback::error_rel;
pub use playback::first_match;
pub use playback::free_slots;
pub use playback::is_active;
pub use playback::is_pending;
pub use playback::lemma_download_slot_cap;
pub use playback::lemma_next_debounced_once;
pub use playback::lemma_paused_position_stable;
pub use playback::lemma_play_pause_keeps_position;
pub use playback::metadata_rel;
pub use playback::no_match;
pub use playback::pending_before;
pub use playback::pending_item_for;
pub use playback::playlist_rel;
pub use playback::remove_rel;
pub use playback::same_but_status;
pub use playback::schedule_rel;
pub use playback::selected_for_download;
pub use playback::success_rel;
pub use playback::DownloadStatus;
pub use playback::PlayStatus;
pub use playback::PlaylistEntry;
pub use playback::QueueItem;
pub use playback::RepeatMode;
pub use playback::SharePlayState;
pub use playback::MAX_ACTIVE_DOWNLOADS;

pub use hub::acq_effects_ok;
pub use hub::action_changes;
pub use hub::apply_action;
pub use hub::broadcast_ok;
pub use hub::cleanup_effects;
pub use hub::delivers_to;
pub use hub::empty_playback;
pub use hub::item_cleanup;
pub use hub::lemma_cleanup_covers_every_item;
pub use hub::lemma_second_session_keeps_call;
pub use hub::lemma_voice_join_idempotent;
pub use hub::no_pair;
pub use hub::no_pb;
pub use hub::no_room;
pub use hub::no_session;
pub use hub::no_song;
pub use hub::no_user;
pub use hub::no_voice;
pub use hub::pair_at;
pub use hub::pb_at;
pub use hub::register_rel;
pub use hub::room_at;
pub use hub::session_at;
pub use hub::session_removed;
pub use hub::song_at;
pub use hub::teardown_effects_ok;
pub use hub::unique_conns;
pub use hub::unique_pairs;
pub use hub::unique_sessions;
pub use hub::update_then_jobs_ok;
pub use hub::user_at;
pub use hub::user_in_call;
pub use hub::users_of;
pub use hub::voice_at;
pub use hub::voice_join_pairs;
pub use hub::Broadcast;
pub use hub::ChatServer;
pub use hub::Effect;
pub use hub::Join;
pub use hub::JoinVoice;
pub use hub::Leave;
pub use hub::LeaveVoice;
pub use hub::PlaybackAction;
pub use hub::PlaybackEntry;
pub use hub::RoomEntry;
pub use hub::RoomState;
pub use hub::ServerMsg;
pub use hub::SessionEntry;
pub use hub::SharePlayDownloadResult;
pub use hub::SharePlayMetadataResult;
pub use hub::SharePlayPlaylistResult;
pub use hub::UserEntry;
pub use hub::VoiceEntry;
pub use hub::VoicePair;

pub use protocol::chat_message_payload;
pub use protocol::connection_metadata_payload;
pub use protocol::dec_str;
pub use protocol::event_chat_message;
pub use protocol::event_connection_metadata;
pub use protocol::event_room_state;
pub use protocol::event_shareplay_cleared;
pub use protocol::event_shareplay_update;
pub use protocol::event_typing;
pub use protocol::event_voice_joined;
pub use protocol::event_voice_left;
pub use protocol::event_webrtc_signal;
pub use protocol::item_json;
pub use protocol::json_escaped;
pub use protocol::queue_json;
pub use protocol::room_state_payload;
pub use protocol::shareplay_cleared_payload;
pub use protocol::shareplay_update_payload;
pub use protocol::str_json;
pub use protocol::str_views;
pub use protocol::typing_payload;
pub use protocol::voice_joined_payload;
pub use protocol::voice_left_payload;
pub use protocol::webrtc_signal_payload;

pub use resolve::is_url;
pub use resolve::normalize_entry_url;
pub use resolve::resolver_target;
pub use resolve::is_youtube_playlist;
pub use resolve::playlist_like;
pub use resolve::seq_contains;
pub use resolve::seq_starts_with;
pub use resolve::url_like;

pub use external::lower_of;
pub use external::now_millis;
