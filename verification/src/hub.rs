//! The room hub: connection registry, room broadcaster, voice presence
//! tracker, signaling relay and the per-room playback engines.
//!
//! The hub is a single logical actor. Every method is one serialized
//! mutation; slow outside work is returned as [`Effect`] values that the
//! surrounding runtime performs (deliver a payload on a connection, spawn
//! an acquisition job, delete files).

use vstd::prelude::*;

use crate::external::str_eq;
use crate::playback::add_rel;
use crate::playback::error_rel;
use crate::playback::first_match;
use crate::playback::metadata_rel;
use crate::playback::no_match;
use crate::playback::playlist_rel;
use crate::playback::schedule_rel;
use crate::playback::success_rel;
use crate::playback::PlayStatus;
use crate::playback::PlaylistEntry;
use crate::playback::QueueItem;
use crate::playback::RepeatMode;
use crate::playback::SharePlayState;
use crate::playback::remove_rel;
use crate::protocol::event_shareplay_update;
use crate::protocol::shareplay_update_payload;
use crate::protocol::connection_metadata_payload;
use crate::protocol::event_connection_metadata;
use crate::protocol::event_room_state;
use crate::protocol::event_shareplay_cleared;
use crate::protocol::event_voice_joined;
use crate::protocol::event_voice_left;
use crate::protocol::room_state_payload;
use crate::protocol::shareplay_cleared_payload;
use crate::protocol::str_views;
use crate::protocol::voice_joined_payload;
use crate::protocol::voice_left_payload;

verus! {

/// One registered device-session of a user and its connection handle.
#[derive(Clone, Debug)]
pub struct SessionEntry {
    pub session_id: String,
    pub conn: u64,
}

/// One user's registry entry: all live sessions, keyed by session id.
#[derive(Clone, Debug)]
pub struct UserEntry {
    pub user_id: String,
    pub sessions: Vec<SessionEntry>,
}

/// One room's broadcast membership: the connections receiving fan-out.
#[derive(Clone, Debug)]
pub struct RoomEntry {
    pub room_id: String,
    pub members: Vec<u64>,
}

/// One (user, device-session) pair present in a room call.
#[derive(Clone, Debug)]
pub struct VoicePair {
    pub user_id: String,
    pub session_id: String,
}

/// One room's voice presence set.
#[derive(Clone, Debug)]
pub struct VoiceEntry {
    pub room_id: String,
    pub pairs: Vec<VoicePair>,
}

/// One room's playback engine, lazily created.
#[derive(Clone, Debug)]
pub struct PlaybackEntry {
    pub room_id: String,
    pub state: SharePlayState,
}

/// One outside action the runtime must perform for the hub.
#[derive(Clone, Debug)]
pub enum Effect {
    /// Send `payload` on connection `conn`.
    Deliver { conn: u64, payload: String },
    /// Start one acquisition job for a queue item.
    StartAcquisition { room_id: String, item_id: String, url: String },
    /// Delete one stored file, best effort.
    DeleteFile { path: String },
    /// Delete every file whose name starts with the item id, best effort.
    DeleteByPrefix { prefix: String },
}

/// Join a room's broadcast set.
pub struct Join {
    pub channel_id: String,
    pub conn: u64,
}

/// Leave a room's broadcast set.
pub struct Leave {
    pub channel_id: String,
    pub conn: u64,
    pub user_id: String,
}

/// Fan a payload out to every member of a room.
pub struct Broadcast {
    pub channel_id: String,
    pub payload: String,
}

/// A (user, session) enters a room call.
pub struct JoinVoice {
    pub channel_id: String,
    pub user_id: String,
    pub session_id: String,
}

/// A (user, session) leaves a room call.
pub struct LeaveVoice {
    pub channel_id: String,
    pub user_id: String,
    pub session_id: String,
}

/// One payload handed to a session's transport.
pub struct ServerMsg {
    pub payload: String,
}

/// The voice roster sent to a connection joining a room.
pub struct RoomState {
    pub voice_users: Vec<String>,
}

/// A metadata (simulate) step finished for one queue item.
pub struct SharePlayMetadataResult {
    pub channel_id: String,
    pub id: String,
    pub success: bool,
    pub title: String,
    pub duration: u64,
    pub thumbnail_path: Option<String>,
    pub error: Option<String>,
}

/// A playlist reference was flattened into entries.
pub struct SharePlayPlaylistResult {
    pub channel_id: String,
    pub placeholder_id: String,
    pub entries: Vec<PlaylistEntry>,
}

/// A media download finished for one queue item.
pub struct SharePlayDownloadResult {
    pub channel_id: String,
    pub id: String,
    pub success: bool,
    pub title: String,
    pub file_path: Option<String>,
    pub thumbnail_path: Option<String>,
    pub duration: u64,
    pub error: Option<String>,
}

/// One clock-side playback command of a room member.
#[derive(Clone, Copy, Debug)]
pub enum PlaybackAction {
    Play,
    Pause,
    Next,
    Prev,
    Seek { position_ms: u64 },
    SetTrack { index: usize },
    ToggleRepeat,
}

/// The playback state a room starts from: empty queue, nothing selected,
/// paused at position zero.
pub open spec fn empty_playback(s: SharePlayState) -> bool {
    &&& s.queue@.len() == 0
    &&& s.current_index is None
    &&& s.status == PlayStatus::Paused
    &&& s.start_time is None
    &&& s.current_position_ms == 0
    &&& s.repeat_mode == RepeatMode::Off
    &&& s.last_auto_next is None
}

/// The state a clock command leaves behind.
pub open spec fn apply_action(s: SharePlayState, a: PlaybackAction, now: u64) -> SharePlayState {
    match a {
        PlaybackAction::Play => s.play_spec(now),
        PlaybackAction::Pause => s.pause_spec(now),
        PlaybackAction::Next => s.next_spec(now),
        PlaybackAction::Prev => s.prev_spec(now),
        PlaybackAction::Seek { position_ms } => s.seek_spec(position_ms, now),
        PlaybackAction::SetTrack { index } => s.set_track_spec(index, now),
        PlaybackAction::ToggleRepeat => s.toggle_repeat_spec(),
    }
}

/// True when a clock command changes material state and so owes the room
/// an updated-state broadcast.
pub open spec fn action_changes(s: SharePlayState, a: PlaybackAction, now: u64) -> bool {
    match a {
        PlaybackAction::Play => s.status != PlayStatus::Playing,
        PlaybackAction::Pause => s.status != PlayStatus::Paused,
        PlaybackAction::Next => s.next_changes(now),
        PlaybackAction::Prev => s.prev_changes(now),
        PlaybackAction::Seek { position_ms } => true,
        PlaybackAction::SetTrack { index } => index < s.queue@.len(),
        PlaybackAction::ToggleRepeat => true,
    }
}

/// The acquisition-job effects for the marked indices of a queue.
pub open spec fn acq_effects_ok(
    state: SharePlayState,
    rid: Seq<char>,
    jobs: Seq<usize>,
    part: Seq<Effect>,
) -> bool {
    &&& part.len() == jobs.len()
    &&& forall|t: int|
        0 <= t < jobs.len() ==> {
            &&& (#[trigger] part[t]) is StartAcquisition
            &&& part[t]->StartAcquisition_room_id@ == rid
            &&& jobs[t] < state.queue@.len()
            &&& part[t]->StartAcquisition_item_id == state.queue@[jobs[t] as int].id
            &&& part[t]->StartAcquisition_url == state.queue@[jobs[t] as int].url
        }
}

/// An updated-state broadcast followed by the acquisition jobs.
pub open spec fn update_then_jobs_ok(
    rooms: Seq<RoomEntry>,
    rid: Seq<char>,
    state: SharePlayState,
    jobs: Seq<usize>,
    effects: Seq<Effect>,
) -> bool {
    exists|n1: int|
        {
            &&& 0 <= n1 <= effects.len()
            &&& broadcast_ok(
                rooms,
                rid,
                event_shareplay_update(rid, state),
                effects.subrange(0, n1),
            )
            &&& acq_effects_ok(state, rid, jobs, effects.subrange(n1, effects.len() as int))
        }
}

/// The hub state: one logical actor owning all real-time data.
pub struct ChatServer {
    pub users: Vec<UserEntry>,
    pub rooms: Vec<RoomEntry>,
    pub voice: Vec<VoiceEntry>,
    pub playback: Vec<PlaybackEntry>,
}

/// No two sessions of one user share a session id.
pub open spec fn unique_sessions(s: Seq<SessionEntry>) -> bool {
    forall|i: int, j: int|
        0 <= i < j < s.len() ==> (#[trigger] s[i]).session_id@ != (#[trigger] s[j]).session_id@
}

/// No connection appears twice in a member list.
pub open spec fn unique_conns(m: Seq<u64>) -> bool {
    forall|i: int, j: int| 0 <= i < j < m.len() ==> m[i] != m[j]
}

/// No (user, session) pair appears twice in a voice set.
pub open spec fn unique_pairs(p: Seq<VoicePair>) -> bool {
    forall|i: int, j: int|
        0 <= i < j < p.len() ==> !((#[trigger] p[i]).user_id@ == (#[trigger] p[j]).user_id@
            && p[i].session_id@ == p[j].session_id@)
}

/// True when `k` is the first (and under `wf` the only) index of `users`
/// holding `uid`.
pub open spec fn user_at(users: Seq<UserEntry>, uid: Seq<char>, k: int) -> bool {
    &&& 0 <= k < users.len()
    &&& users[k].user_id@ == uid
    &&& forall|j: int| 0 <= j < k ==> (#[trigger] users[j]).user_id@ != uid
}

pub open spec fn no_user(users: Seq<UserEntry>, uid: Seq<char>) -> bool {
    forall|j: int| 0 <= j < users.len() ==> (#[trigger] users[j]).user_id@ != uid
}

pub open spec fn room_at(rooms: Seq<RoomEntry>, rid: Seq<char>, k: int) -> bool {
    &&& 0 <= k < rooms.len()
    &&& rooms[k].room_id@ == rid
    &&& forall|j: int| 0 <= j < k ==> (#[trigger] rooms[j]).room_id@ != rid
}

pub open spec fn no_room(rooms: Seq<RoomEntry>, rid: Seq<char>) -> bool {
    forall|j: int| 0 <= j < rooms.len() ==> (#[trigger] rooms[j]).room_id@ != rid
}

pub open spec fn voice_at(voice: Seq<VoiceEntry>, rid: Seq<char>, k: int) -> bool {
    &&& 0 <= k < voice.len()
    &&& voice[k].room_id@ == rid
    &&& forall|j: int| 0 <= j < k ==> (#[trigger] voice[j]).room_id@ != rid
}

pub open spec fn no_voice(voice: Seq<VoiceEntry>, rid: Seq<char>) -> bool {
    forall|j: int| 0 <= j < voice.len() ==> (#[trigger] voice[j]).room_id@ != rid
}

pub open spec fn pb_at(pb: Seq<PlaybackEntry>, rid: Seq<char>, k: int) -> bool {
    &&& 0 <= k < pb.len()
    &&& pb[k].room_id@ == rid
    &&& forall|j: int| 0 <= j < k ==> (#[trigger] pb[j]).room_id@ != rid
}

pub open spec fn no_pb(pb: Seq<PlaybackEntry>, rid: Seq<char>) -> bool {
    forall|j: int| 0 <= j < pb.len() ==> (#[trigger] pb[j]).room_id@ != rid
}

pub open spec fn session_at(s: Seq<SessionEntry>, sid: Seq<char>, t: int) -> bool {
    &&& 0 <= t < s.len()
    &&& s[t].session_id@ == sid
    &&& forall|j: int| 0 <= j < t ==> (#[trigger] s[j]).session_id@ != sid
}

pub open spec fn no_session(s: Seq<SessionEntry>, sid: Seq<char>) -> bool {
    forall|j: int| 0 <= j < s.len() ==> (#[trigger] s[j]).session_id@ != sid
}

pub open spec fn pair_at(p: Seq<VoicePair>, uid: Seq<char>, sid: Seq<char>, t: int) -> bool {
    &&& 0 <= t < p.len()
    &&& p[t].user_id@ == uid
    &&& p[t].session_id@ == sid
    &&& forall|j: int|
        0 <= j < t ==> !((#[trigger] p[j]).user_id@ == uid && p[j].session_id@ == sid)
}

pub open spec fn no_pair(p: Seq<VoicePair>, uid: Seq<char>, sid: Seq<char>) -> bool {
    forall|j: int|
        0 <= j < p.len() ==> !((#[trigger] p[j]).user_id@ == uid && p[j].session_id@ == sid)
}

/// A first-match index is unique.
pub proof fn lemma_room_at_unique(rooms: Seq<RoomEntry>, rid: Seq<char>, k1: int, k2: int)
    requires
        room_at(rooms, rid, k1),
        room_at(rooms, rid, k2),
    ensures
        k1 == k2,
{
    if k1 < k2 {
        assert(rooms[k1].room_id@ != rid);
    } else if k2 < k1 {
        assert(rooms[k2].room_id@ != rid);
    }
}

/// Any match yields a first match.
pub proof fn lemma_room_at_exists(rooms: Seq<RoomEntry>, rid: Seq<char>, j: int)
    requires
        0 <= j < rooms.len(),
        rooms[j].room_id@ == rid,
    ensures
        exists|k: int| #[trigger] room_at(rooms, rid, k),
    decreases j,
{
    if forall|i: int| 0 <= i < j ==> (#[trigger] rooms[i]).room_id@ != rid {
        assert(room_at(rooms, rid, j));
    } else {
        let i = choose|i: int| 0 <= i < j && (#[trigger] rooms[i]).room_id@ == rid;
        lemma_room_at_exists(rooms, rid, i);
    }
}

/// A first-match index is unique.
pub proof fn lemma_user_at_unique(users: Seq<UserEntry>, uid: Seq<char>, k1: int, k2: int)
    requires
        user_at(users, uid, k1),
        user_at(users, uid, k2),
    ensures
        k1 == k2,
{
    if k1 < k2 {
        assert(users[k1].user_id@ != uid);
    } else if k2 < k1 {
        assert(users[k2].user_id@ != uid);
    }
}

/// A first-match index is unique.
pub proof fn lemma_voice_at_unique(voice: Seq<VoiceEntry>, rid: Seq<char>, k1: int, k2: int)
    requires
        voice_at(voice, rid, k1),
        voice_at(voice, rid, k2),
    ensures
        k1 == k2,
{
    if k1 < k2 {
        assert(voice[k1].room_id@ != rid);
    } else if k2 < k1 {
        assert(voice[k2].room_id@ != rid);
    }
}

/// A first-match index is unique.
pub proof fn lemma_pb_at_unique(pb: Seq<PlaybackEntry>, rid: Seq<char>, k1: int, k2: int)
    requires
        pb_at(pb, rid, k1),
        pb_at(pb, rid, k2),
    ensures
        k1 == k2,
{
    if k1 < k2 {
        assert(pb[k1].room_id@ != rid);
    } else if k2 < k1 {
        assert(pb[k2].room_id@ != rid);
    }
}

/// A first-match index is unique.
pub proof fn lemma_session_at_unique(s: Seq<SessionEntry>, sid: Seq<char>, t1: int, t2: int)
    requires
        session_at(s, sid, t1),
        session_at(s, sid, t2),
    ensures
        t1 == t2,
{
    if t1 < t2 {
        assert(s[t1].session_id@ != sid);
    } else if t2 < t1 {
        assert(s[t2].session_id@ != sid);
    }
}

/// A first-match index is unique.
pub proof fn lemma_pair_at_unique(p: Seq<VoicePair>, uid: Seq<char>, sid: Seq<char>, t1: int, t2: int)
    requires
        pair_at(p, uid, sid, t1),
        pair_at(p, uid, sid, t2),
    ensures
        t1 == t2,
{
    if t1 < t2 {
        assert(!(p[t1].user_id@ == uid && p[t1].session_id@ == sid));
    } else if t2 < t1 {
        assert(!(p[t2].user_id@ == uid && p[t2].session_id@ == sid));
    }
}

/// True when `user` still holds at least one session in the voice set.
pub open spec fn user_in_call(p: Seq<VoicePair>, uid: Seq<char>) -> bool {
    exists|j: int| 0 <= j < p.len() && (#[trigger] p[j]).user_id@ == uid
}

/// The roster of a voice set: each user's id once, in order of first
/// appearance, as character sequences.
pub open spec fn users_of(p: Seq<VoicePair>) -> Seq<Seq<char>>
    decreases p.len(),
{
    if p.len() == 0 {
        Seq::empty()
    } else {
        let r = users_of(p.drop_last());
        if r.contains(p.last().user_id@) {
            r
        } else {
            r.push(p.last().user_id@)
        }
    }
}

/// The delivery fan-out of one payload to a member list, in order.
pub open spec fn delivers_to(members: Seq<u64>, payload: Seq<char>, effects: Seq<Effect>) -> bool {
    &&& effects.len() == members.len()
    &&& forall|k: int|
        0 <= k < members.len() ==> {
            &&& (#[trigger] effects[k]) is Deliver
            &&& effects[k]->Deliver_conn == members[k]
            &&& effects[k]->Deliver_payload@ == payload
        }
}

/// How `register` changes the registry: a new user entry with one
/// session, a new session pushed onto an existing user, or a re-registered
/// session's connection handle replaced.
pub open spec fn register_rel(
    pre: ChatServer,
    post: ChatServer,
    user_id: String,
    session_id: String,
    conn: u64,
) -> bool {
    &&& post.rooms == pre.rooms
    &&& post.voice == pre.voice
    &&& post.playback == pre.playback
    &&& (no_user(pre.users@, user_id@) ==> {
        &&& post.users@.len() == pre.users@.len() + 1
        &&& (forall|j: int|
            0 <= j < pre.users@.len() ==> #[trigger] post.users@[j] == pre.users@[j])
        &&& post.users@.last().user_id == user_id
        &&& post.users@.last().sessions@ == seq![SessionEntry { session_id, conn }]
    })
    &&& (forall|k: int|
        user_at(pre.users@, user_id@, k) ==> {
            &&& post.users@.len() == pre.users@.len()
            &&& (forall|j: int|
                0 <= j < pre.users@.len() && j != k ==> #[trigger] post.users@[j]
                    == pre.users@[j])
            &&& post.users@[k].user_id == pre.users@[k].user_id
            &&& (no_session(pre.users@[k].sessions@, session_id@) ==> post.users@[k].sessions@
                == pre.users@[k].sessions@.push(SessionEntry { session_id, conn }))
            &&& (forall|t: int|
                session_at(pre.users@[k].sessions@, session_id@, t)
                    ==> post.users@[k].sessions@ == pre.users@[k].sessions@.update(
                    t,
                    SessionEntry { session_id, conn },
                ))
        })
}

/// How `unregister` changes the registry when user entry `k` held the
/// session at index `t`: the session leaves, and the last session takes
/// the whole user entry with it.
pub open spec fn session_removed(pre: ChatServer, post: ChatServer, k: int, t: int) -> bool {
    &&& (pre.users@[k].sessions@.len() == 1 ==> post.users@ == pre.users@.remove(k))
    &&& (pre.users@[k].sessions@.len() != 1 ==> {
        &&& post.users@.len() == pre.users@.len()
        &&& (forall|j: int|
            0 <= j < pre.users@.len() && j != k ==> #[trigger] post.users@[j] == pre.users@[j])
        &&& post.users@[k].user_id == pre.users@[k].user_id
        &&& post.users@[k].sessions@ == pre.users@[k].sessions@.remove(t)
    })
}

/// True when room entry `i`, queue index `j` is the first queue item
/// over all rooms, in room order, carrying `id`.
pub open spec fn song_at(pb: Seq<PlaybackEntry>, id: Seq<char>, i: int, j: int) -> bool {
    &&& 0 <= i < pb.len()
    &&& first_match(pb[i].state.queue@, id, j)
    &&& forall|i2: int| 0 <= i2 < i ==> no_match((#[trigger] pb[i2]).state.queue@, id)
}

/// True when no room's queue holds an item carrying `id`.
pub open spec fn no_song(pb: Seq<PlaybackEntry>, id: Seq<char>) -> bool {
    forall|i: int| 0 <= i < pb.len() ==> no_match((#[trigger] pb[i]).state.queue@, id)
}

/// The voice set after a join: the pair is appended when absent, else
/// nothing changes.
pub open spec fn voice_join_pairs(p: Seq<VoicePair>, pr: VoicePair) -> Seq<VoicePair> {
    if no_pair(p, pr.user_id@, pr.session_id@) {
        p.push(pr)
    } else {
        p
    }
}

/// Joining the same pair twice changes nothing the second time, and after
/// the first join the user is in call, so a repeated join can emit no
/// second voice_joined event.
pub proof fn lemma_voice_join_idempotent(p: Seq<VoicePair>, pr: VoicePair)
    ensures
        voice_join_pairs(voice_join_pairs(p, pr), pr) == voice_join_pairs(p, pr),
        user_in_call(voice_join_pairs(p, pr), pr.user_id@),
{
    let p1 = voice_join_pairs(p, pr);
    if no_pair(p, pr.user_id@, pr.session_id@) {
        assert(p1[p.len() as int] == pr);
        assert(!no_pair(p1, pr.user_id@, pr.session_id@));
    } else {
        let j = choose|j: int|
            0 <= j < p.len() && (#[trigger] p[j]).user_id@ == pr.user_id@ && p[j].session_id@
                == pr.session_id@;
        assert(p1[j].user_id@ == pr.user_id@);
    }
}

/// A user with a second session in the call stays in the call when one
/// session leaves: removing one pair cannot silence the other.
pub proof fn lemma_second_session_keeps_call(p: Seq<VoicePair>, t: int, j: int)
    requires
        0 <= t < p.len(),
        0 <= j < p.len(),
        j != t,
        p[j].user_id@ == p[t].user_id@,
    ensures
        user_in_call(p.remove(t), p[t].user_id@),
{
    let r = p.remove(t);
    if j < t {
        assert(r[j] == p[j]);
    } else {
        assert(r[j - 1] == p[j]);
    }
}

/// The file-deletion effects owed for one queue item: its stored media
/// path and thumbnail path when present, and an id-prefix scan for files
/// whose final extension the resolver chose.
pub open spec fn item_cleanup(it: QueueItem) -> Seq<Effect> {
    (match it.file_path {
        Some(p) => seq![Effect::DeleteFile { path: p }],
        None => Seq::empty(),
    }) + (match it.thumbnail_path {
        Some(p) => seq![Effect::DeleteFile { path: p }],
        None => Seq::empty(),
    }) + seq![Effect::DeleteByPrefix { prefix: it.id }]
}

/// The file-deletion effects owed for a whole queue, in queue order.
pub open spec fn cleanup_effects(q: Seq<QueueItem>) -> Seq<Effect>
    decreases q.len(),
{
    if q.len() == 0 {
        Seq::empty()
    } else {
        cleanup_effects(q.drop_last()) + item_cleanup(q.last())
    }
}

/// The teardown plan is complete: for every queue item it holds the
/// id-prefix deletion, and the stored media and thumbnail deletions where
/// paths are stored — so no torn-down item's files are left behind by a
/// runtime that carries the plan out.
pub proof fn lemma_cleanup_covers_every_item(q: Seq<QueueItem>, j: int)
    requires
        0 <= j < q.len(),
    ensures
        cleanup_effects(q).contains(Effect::DeleteByPrefix { prefix: q[j].id }),
        q[j].file_path is Some ==> cleanup_effects(q).contains(
            Effect::DeleteFile { path: q[j].file_path->0 },
        ),
        q[j].thumbnail_path is Some ==> cleanup_effects(q).contains(
            Effect::DeleteFile { path: q[j].thumbnail_path->0 },
        ),
    decreases q.len(),
{
    let whole = cleanup_effects(q);
    let head = cleanup_effects(q.drop_last());
    let ic = item_cleanup(q.last());
    if j == q.len() - 1 {
        assert(ic[ic.len() - 1] == Effect::DeleteByPrefix { prefix: q[j].id });
        assert(whole[head.len() + ic.len() - 1] == Effect::DeleteByPrefix { prefix: q[j].id });
        if q[j].file_path is Some {
            assert(ic[0] == Effect::DeleteFile { path: q[j].file_path->0 });
            assert(whole[head.len() as int] == Effect::DeleteFile { path: q[j].file_path->0 });
        }
        if q[j].thumbnail_path is Some {
            let off: int = if q[j].file_path is Some {
                1
            } else {
                0
            };
            assert(ic[off] == Effect::DeleteFile { path: q[j].thumbnail_path->0 });
            assert(whole[head.len() + off] == Effect::DeleteFile {
                path: q[j].thumbnail_path->0,
            });
        }
    } else {
        lemma_cleanup_covers_every_item(q.drop_last(), j);
        assert forall|x: Effect| head.contains(x) implies whole.contains(x) by {
            let i = choose|i: int| 0 <= i < head.len() && head[i] == x;
            assert(whole[i] == x);
        }
        assert(q.drop_last()[j] == q[j]);
    }
}

/// The effects a broadcast to `rid` yields: one delivery per member, and
/// none at all for an unknown room.
pub open spec fn broadcast_ok(
    rooms: Seq<RoomEntry>,
    rid: Seq<char>,
    payload: Seq<char>,
    effects: Seq<Effect>,
) -> bool {
    &&& (no_room(rooms, rid) ==> effects.len() == 0)
    &&& (forall|k: int|
        room_at(rooms, rid, k) ==> delivers_to(rooms[k].members@, payload, effects))
}

/// The effects of a full room teardown: the voice_left fan-out, then the
/// shareplay_cleared fan-out, then the file deletions for every item of
/// the torn-down queue.
pub open spec fn teardown_effects_ok(
    rooms: Seq<RoomEntry>,
    rid: Seq<char>,
    uid: Seq<char>,
    state: SharePlayState,
    effects: Seq<Effect>,
) -> bool {
    exists|n1: int, n2: int|
        {
            &&& 0 <= n1 <= n2 <= effects.len()
            &&& broadcast_ok(rooms, rid, event_voice_left(rid, uid), effects.subrange(0, n1))
            &&& broadcast_ok(rooms, rid, event_shareplay_cleared(rid), effects.subrange(n1, n2))
            &&& effects.subrange(n2, effects.len() as int) == cleanup_effects(state.queue@)
        }
}

/// True when `skip_room` is set and `conn` is a member of that room: the
/// event was already delivered to that session by the room fan-out.
pub open spec fn skipped_conn(
    rooms: Seq<RoomEntry>,
    skip_room: Option<&String>,
    conn: u64,
) -> bool {
    match skip_room {
        None => false,
        Some(rid) => exists|k: int|
            #[trigger] room_at(rooms, rid@, k) && rooms[k].members@.contains(conn),
    }
}

/// Index of the first occurrence of `conn` in a member list, if any.
fn member_index(members: &Vec<u64>, conn: u64) -> (r: Option<usize>)
    ensures
        match r {
            Some(t) => 0 <= t < members@.len() && members@[t as int] == conn,
            None => !members@.contains(conn),
        },
{
    let mut t: usize = 0;
    while t < members.len()
        invariant
            t <= members@.len(),
            forall|j: int| 0 <= j < t ==> members@[j] != conn,
        decreases members@.len() - t,
    {
        if members[t] == conn {
            return Some(t);
        }
        t = t + 1;
    }
    proof {
        assert forall|j: int| 0 <= j < members@.len() implies members@[j] != conn by {}
    }
    None
}

/// The acquisition-job effects for the marked indices, in order.
fn acquisition_effects(channel_id: &str, state: &SharePlayState, jobs: &Vec<usize>) -> (r: Vec<
    Effect,
>)
    requires
        forall|t: int| 0 <= t < jobs@.len() ==> #[trigger] jobs@[t] < state.queue@.len(),
    ensures
        acq_effects_ok(*state, channel_id@, jobs@, r@),
{
    let mut r: Vec<Effect> = Vec::new();
    let mut t: usize = 0;
    while t < jobs.len()
        invariant
            t <= jobs@.len(),
            r@.len() == t,
            forall|t2: int| 0 <= t2 < jobs@.len() ==> #[trigger] jobs@[t2] < state.queue@.len(),
            forall|t2: int|
                0 <= t2 < t ==> {
                    &&& (#[trigger] r@[t2]) is StartAcquisition
                    &&& r@[t2]->StartAcquisition_room_id@ == channel_id@
                    &&& r@[t2]->StartAcquisition_item_id
                        == state.queue@[jobs@[t2] as int].id
                    &&& r@[t2]->StartAcquisition_url == state.queue@[jobs@[t2] as int].url
                },
        decreases jobs@.len() - t,
    {
        let j = jobs[t];
        r.push(
            Effect::StartAcquisition {
                room_id: channel_id.to_owned(),
                item_id: state.queue[j].id.clone(),
                url: state.queue[j].url.clone(),
            },
        );
        t = t + 1;
    }
    r
}

/// True when the roster already carries `uid`.
fn roster_contains(roster: &Vec<String>, uid: &str) -> (r: bool)
    ensures
        r == exists|j: int| 0 <= j < roster@.len() && (#[trigger] roster@[j])@ == uid@,
{
    let mut t: usize = 0;
    while t < roster.len()
        invariant
            t <= roster@.len(),
            forall|j: int| 0 <= j < t ==> (#[trigger] roster@[j])@ != uid@,
        decreases roster@.len() - t,
    {
        if str_eq(roster[t].as_str(), uid) {
            proof {
                assert(roster@[t as int]@ == uid@);
            }
            return true;
        }
        t = t + 1;
    }
    false
}


impl ChatServer {
    /// Well-formedness: every key occurs once, every member list and voice
    /// set is duplicate free, and every playback state is well formed.
    pub open spec fn wf(self) -> bool {
        &&& forall|i: int, j: int|
            0 <= i < j < self.users@.len() ==> (#[trigger] self.users@[i]).user_id@ != (
            #[trigger] self.users@[j]).user_id@
        &&& forall|i: int|
            0 <= i < self.users@.len() ==> unique_sessions((#[trigger] self.users@[i]).sessions@)
        &&& forall|i: int, j: int|
            0 <= i < j < self.rooms@.len() ==> (#[trigger] self.rooms@[i]).room_id@ != (
            #[trigger] self.rooms@[j]).room_id@
        &&& forall|i: int|
            0 <= i < self.rooms@.len() ==> unique_conns((#[trigger] self.rooms@[i]).members@)
        &&& forall|i: int, j: int|
            0 <= i < j < self.voice@.len() ==> (#[trigger] self.voice@[i]).room_id@ != (
            #[trigger] self.voice@[j]).room_id@
        &&& forall|i: int|
            0 <= i < self.voice@.len() ==> unique_pairs((#[trigger] self.voice@[i]).pairs@)
        &&& forall|i: int, j: int|
            0 <= i < j < self.playback@.len() ==> (#[trigger] self.playback@[i]).room_id@ != (
            #[trigger] self.playback@[j]).room_id@
        &&& forall|i: int| 0 <= i < self.playback@.len() ==> (#[trigger] self.playback@[i]).state.wf()
    }

    /// A hub with no users, rooms, voice presence or playback state; the
    /// whole real-time state is rebuilt empty on boot.
    pub fn new() -> (s: ChatServer)
        ensures
            s.wf(),
            s.users@.len() == 0,
            s.rooms@.len() == 0,
            s.voice@.len() == 0,
            s.playback@.len() == 0,
    {
        ChatServer { users: Vec::new(), rooms: Vec::new(), voice: Vec::new(), playback: Vec::new() }
    }

    /// Index of the room entry for `rid`, if any.
    fn find_room(&self, rid: &str) -> (r: Option<usize>)
        ensures
            match r {
                Some(k) => room_at(self.rooms@, rid@, k as int),
                None => no_room(self.rooms@, rid@),
            },
    {
        let mut k: usize = 0;
        while k < self.rooms.len()
            invariant
                k <= self.rooms@.len(),
                forall|j: int| 0 <= j < k ==> (#[trigger] self.rooms@[j]).room_id@ != rid@,
            decreases self.rooms@.len() - k,
        {
            if str_eq(self.rooms[k].room_id.as_str(), rid) {
                return Some(k);
            }
            k = k + 1;
        }
        None
    }

    /// Index of the user entry for `uid`, if any.
    fn find_user(&self, uid: &str) -> (r: Option<usize>)
        ensures
            match r {
                Some(k) => user_at(self.users@, uid@, k as int),
                None => no_user(self.users@, uid@),
            },
    {
        let mut k: usize = 0;
        while k < self.users.len()
            invariant
                k <= self.users@.len(),
                forall|j: int| 0 <= j < k ==> (#[trigger] self.users@[j]).user_id@ != uid@,
            decreases self.users@.len() - k,
        {
            if str_eq(self.users[k].user_id.as_str(), uid) {
                return Some(k);
            }
            k = k + 1;
        }
        None
    }

    /// Index of the voice entry for `rid`, if any.
    fn find_voice(&self, rid: &str) -> (r: Option<usize>)
        ensures
            match r {
                Some(k) => voice_at(self.voice@, rid@, k as int),
                None => no_voice(self.voice@, rid@),
            },
    {
        let mut k: usize = 0;
        while k < self.voice.len()
            invariant
                k <= self.voice@.len(),
                forall|j: int| 0 <= j < k ==> (#[trigger] self.voice@[j]).room_id@ != rid@,
            decreases self.voice@.len() - k,
        {
            if str_eq(self.voice[k].room_id.as_str(), rid) {
                return Some(k);
            }
            k = k + 1;
        }
        None
    }

    /// Index of the playback entry for `rid`, if any.
    fn find_pb(&self, rid: &str) -> (r: Option<usize>)
        ensures
            match r {
                Some(k) => pb_at(self.playback@, rid@, k as int),
                None => no_pb(self.playback@, rid@),
            },
    {
        let mut k: usize = 0;
        while k < self.playback.len()
            invariant
                k <= self.playback@.len(),
                forall|j: int| 0 <= j < k ==> (#[trigger] self.playback@[j]).room_id@ != rid@,
            decreases self.playback@.len() - k,
        {
            if str_eq(self.playback[k].room_id.as_str(), rid) {
                return Some(k);
            }
            k = k + 1;
        }
        None
    }

    /// Register a (user, session, connection) triple. A fresh session is
    /// inserted; re-registering a session replaces its connection handle;
    /// either way the call is idempotent on presence.
    #[verifier::loop_isolation(false)]
    pub fn register(&mut self, user_id: String, session_id: String, conn: u64)
        requires
            old(self).wf(),
        ensures
            final(self).wf(),
            register_rel(*old(self), *final(self), user_id, session_id, conn),
    {
        match self.find_user(user_id.as_str()) {
            None => {
                let mut sessions: Vec<SessionEntry> = Vec::new();
                sessions.push(SessionEntry { session_id, conn });
                let ghost uid_v = user_id@;
                let entry = UserEntry { user_id, sessions };
                let ghost u1 = self.users@;
                self.users.push(entry);
                proof {
                    let u2 = self.users@;
                    assert forall|i: int, j: int| 0 <= i < j < u2.len() implies (
                    #[trigger] u2[i]).user_id@ != (#[trigger] u2[j]).user_id@ by {
                        if j == u2.len() - 1 {
                            assert(u1[i].user_id@ != uid_v);
                        }
                    }
                    assert forall|i: int| 0 <= i < u2.len() implies unique_sessions(
                        (#[trigger] u2[i]).sessions@,
                    ) by {
                        if i < u2.len() - 1 {
                            assert(u2[i] == u1[i]);
                        }
                    }
                }
            },
            Some(k) => {
                let ghost u1 = self.users@;
                let ghost sess0 = self.users@[k as int].sessions@;
                let ghost sid_v = session_id@;
                let mut t: usize = 0;
                while t < self.users[k].sessions.len()
                    invariant
                        t <= sess0.len(),
                        user_at(self.users@, user_id@, k as int),
                        k < self.users@.len(),
                        self.users@[k as int].sessions@ == sess0,
                        *self == *old(self),
                        sid_v == session_id@,
                        forall|j: int|
                            0 <= j < t ==> (#[trigger] sess0[j]).session_id@ != sid_v,
                    decreases sess0.len() - t,
                {
                    if str_eq(self.users[k].sessions[t].session_id.as_str(), session_id.as_str()) {
                        let newe = SessionEntry { session_id, conn };
                        let ghost ne = newe;
                        self.users[k].sessions[t] = newe;
                        proof {
                            let u2 = self.users@;
                            assert(session_at(sess0, sid_v, t as int));
                            assert(u2.len() == u1.len());
                            assert(forall|j: int| 0 <= j < u1.len() && j != k ==> u2[j] == u1[j]);
                            assert(u2[k as int].user_id == u1[k as int].user_id);
                            assert(u2[k as int].sessions@ =~= sess0.update(t as int, ne));
                            assert forall|i: int, j: int| 0 <= i < j < u2.len() implies (
                            #[trigger] u2[i]).user_id@ != (#[trigger] u2[j]).user_id@ by {
                                assert(u1[i].user_id@ != u1[j].user_id@);
                            }
                            assert forall|i: int| 0 <= i < u2.len() implies unique_sessions(
                                (#[trigger] u2[i]).sessions@,
                            ) by {
                                if i == k {
                                    let s2 = u2[k as int].sessions@;
                                    assert(s2[t as int].session_id@ == sess0[t as int].session_id@);
                                    assert forall|a: int, b: int| 0 <= a < b < s2.len() implies (
                                    #[trigger] s2[a]).session_id@ != (
                                    #[trigger] s2[b]).session_id@ by {
                                        assert(sess0[a].session_id@ != sess0[b].session_id@);
                                    }
                                } else {
                                    assert(u2[i] == u1[i]);
                                }
                            }
                        }
                        return ;
                    }
                    t = t + 1;
                }
                let newe = SessionEntry { session_id, conn };
                let ghost ne = newe;
                self.users[k].sessions.push(newe);
                proof {
                    let u2 = self.users@;
                    assert(no_session(sess0, sid_v));
                    assert(u2[k as int].sessions@ =~= sess0.push(ne));
                    assert forall|i: int, j: int| 0 <= i < j < u2.len() implies (
                    #[trigger] u2[i]).user_id@ != (#[trigger] u2[j]).user_id@ by {
                        assert(u1[i].user_id@ != u1[j].user_id@);
                    }
                    assert forall|i: int| 0 <= i < u2.len() implies unique_sessions(
                        (#[trigger] u2[i]).sessions@,
                    ) by {
                        if i == k {
                            let s2 = u2[k as int].sessions@;
                            assert forall|a: int, b: int| 0 <= a < b < s2.len() implies (
                            #[trigger] s2[a]).session_id@ != (#[trigger] s2[b]).session_id@ by {
                                if b < s2.len() - 1 {
                                    assert(sess0[a].session_id@ != sess0[b].session_id@);
                                } else {
                                    assert(sess0[a].session_id@ != sid_v);
                                }
                            }
                        } else {
                            assert(u2[i] == u1[i]);
                        }
                    }
                }
            },
        }
    }

    /// Remove a (user, session) from the registry; removing the last
    /// session drops the user's entry. Unknown ids are a silent no-op.
    #[verifier::loop_isolation(false)]
    pub fn unregister(&mut self, user_id: &str, session_id: &str)
        requires
            old(self).wf(),
        ensures
            final(self).wf(),
            final(self).rooms == old(self).rooms,
            final(self).voice == old(self).voice,
            final(self).playback == old(self).playback,
            no_user(old(self).users@, user_id@) ==> *final(self) == *old(self),
            forall|k: int|
                user_at(old(self).users@, user_id@, k) && no_session(
                    old(self).users@[k].sessions@,
                    session_id@,
                ) ==> *final(self) == *old(self),
            forall|k: int, t: int|
                user_at(old(self).users@, user_id@, k) && session_at(
                    old(self).users@[k].sessions@,
                    session_id@,
                    t,
                ) ==> session_removed(*old(self), *final(self), k, t),
    {
        match self.find_user(user_id) {
            None => {},
            Some(k) => {
                let ghost u1 = self.users@;
                let ghost sess0 = self.users@[k as int].sessions@;
                let mut t: usize = 0;
                while t < self.users[k].sessions.len()
                    invariant
                        t <= sess0.len(),
                        user_at(self.users@, user_id@, k as int),
                        k < self.users@.len(),
                        self.users@[k as int].sessions@ == sess0,
                        *self == *old(self),
                        forall|j: int|
                            0 <= j < t ==> (#[trigger] sess0[j]).session_id@ != session_id@,
                    decreases sess0.len() - t,
                {
                    if str_eq(self.users[k].sessions[t].session_id.as_str(), session_id) {
                        proof {
                            assert(session_at(sess0, session_id@, t as int));
                        }
                        if self.users[k].sessions.len() == 1 {
                            self.users.remove(k);
                            proof {
                                let u2 = self.users@;
                                assert(u2 =~= u1.remove(k as int));
                                assert forall|i: int, j: int| 0 <= i < j < u2.len() implies (
                                #[trigger] u2[i]).user_id@ != (#[trigger] u2[j]).user_id@ by {
                                    if i < k {
                                        if j < k {
                                            assert(u1[i].user_id@ != u1[j].user_id@);
                                        } else {
                                            assert(u1[i].user_id@ != u1[j + 1].user_id@);
                                        }
                                    } else {
                                        assert(u1[i + 1].user_id@ != u1[j + 1].user_id@);
                                    }
                                }
                                assert forall|i: int| 0 <= i < u2.len() implies unique_sessions(
                                    (#[trigger] u2[i]).sessions@,
                                ) by {
                                    if i < k {
                                        assert(u2[i] == u1[i]);
                                    } else {
                                        assert(u2[i] == u1[i + 1]);
                                    }
                                }
                            }
                        } else {
                            self.users[k].sessions.remove(t);
                            proof {
                                let u2 = self.users@;
                                assert(u2[k as int].sessions@ =~= sess0.remove(t as int));
                                assert forall|i: int, j: int| 0 <= i < j < u2.len() implies (
                                #[trigger] u2[i]).user_id@ != (#[trigger] u2[j]).user_id@ by {
                                    assert(u1[i].user_id@ != u1[j].user_id@);
                                }
                                assert forall|i: int| 0 <= i < u2.len() implies unique_sessions(
                                    (#[trigger] u2[i]).sessions@,
                                ) by {
                                    if i == k {
                                        let s2 = u2[k as int].sessions@;
                                        assert forall|a: int, b: int|
                                            0 <= a < b < s2.len() implies (
                                        #[trigger] s2[a]).session_id@ != (
                                        #[trigger] s2[b]).session_id@ by {
                                            let a0 = if a < t { a } else { a + 1 };
                                            let b0 = if b < t { b } else { b + 1 };
                                            assert(s2[a] == sess0[a0]);
                                            assert(s2[b] == sess0[b0]);
                                            assert(sess0[a0].session_id@
                                                != sess0[b0].session_id@);
                                        }
                                    } else {
                                        assert(u2[i] == u1[i]);
                                    }
                                }
                            }
                        }
                        return ;
                    }
                    t = t + 1;
                }
            },
        }
    }

    /// Add `conn` to the room's broadcast set, creating the room entry on
    /// first use; re-joining is a no-op. The joining connection is sent
    /// the room's voice roster when the room has a voice set.
    #[verifier::loop_isolation(false)]
    pub fn join_room(&mut self, msg: Join) -> (effects: Vec<Effect>)
        requires
            old(self).wf(),
        ensures
            final(self).wf(),
            final(self).users == old(self).users,
            final(self).voice == old(self).voice,
            final(self).playback == old(self).playback,
            no_room(old(self).rooms@, msg.channel_id@) ==> {
                &&& final(self).rooms@.len() == old(self).rooms@.len() + 1
                &&& (forall|j: int|
                    0 <= j < old(self).rooms@.len() ==> #[trigger] final(self).rooms@[j] == old(self).rooms@[j])
                &&& final(self).rooms@.last().room_id == msg.channel_id
                &&& final(self).rooms@.last().members@ == seq![msg.conn]
            },
            forall|k: int|
                room_at(old(self).rooms@, msg.channel_id@, k) ==> {
                    &&& final(self).rooms@.len() == old(self).rooms@.len()
                    &&& (forall|j: int|
                        0 <= j < old(self).rooms@.len() && j != k ==> #[trigger] final(self).rooms@[j] == old(self).rooms@[j])
                    &&& final(self).rooms@[k].room_id == old(self).rooms@[k].room_id
                    &&& (old(self).rooms@[k].members@.contains(msg.conn) ==> final(self).rooms@[k].members@ == old(self).rooms@[k].members@)
                    &&& (!old(self).rooms@[k].members@.contains(msg.conn) ==> final(self).rooms@[k].members@ == old(self).rooms@[k].members@.push(msg.conn))
                },
            no_voice(old(self).voice@, msg.channel_id@) ==> effects@.len() == 0,
            forall|v: int|
                voice_at(old(self).voice@, msg.channel_id@, v) ==> {
                    &&& effects@.len() == 1
                    &&& effects@[0] is Deliver
                    &&& effects@[0]->Deliver_conn == msg.conn
                    &&& effects@[0]->Deliver_payload@ == event_room_state(
                        users_of(old(self).voice@[v].pairs@),
                    )
                },
    {
        match self.find_room(msg.channel_id.as_str()) {
            None => {
                let mut members: Vec<u64> = Vec::new();
                members.push(msg.conn);
                let ghost r1 = self.rooms@;
                let ghost rid_v = msg.channel_id@;
                let entry = RoomEntry { room_id: msg.channel_id.clone(), members };
                self.rooms.push(entry);
                proof {
                    let r2 = self.rooms@;
                    assert forall|i: int, j: int| 0 <= i < j < r2.len() implies (
                    #[trigger] r2[i]).room_id@ != (#[trigger] r2[j]).room_id@ by {
                        if j == r2.len() - 1 {
                            assert(r1[i].room_id@ != rid_v);
                        }
                    }
                    assert forall|i: int| 0 <= i < r2.len() implies unique_conns(
                        (#[trigger] r2[i]).members@,
                    ) by {
                        if i < r2.len() - 1 {
                            assert(r2[i] == r1[i]);
                        }
                    }
                }
            },
            Some(k) => {
                let present = member_index(&self.rooms[k].members, msg.conn);
                match present {
                    Some(_) => {},
                    None => {
                        let ghost r1 = self.rooms@;
                        let ghost mem0 = self.rooms@[k as int].members@;
                        self.rooms[k].members.push(msg.conn);
                        proof {
                            let r2 = self.rooms@;
                            assert(r2[k as int].members@ =~= mem0.push(msg.conn));
                            assert forall|i: int, j: int| 0 <= i < j < r2.len() implies (
                            #[trigger] r2[i]).room_id@ != (#[trigger] r2[j]).room_id@ by {
                                assert(r1[i].room_id@ != r1[j].room_id@);
                            }
                            assert forall|i: int| 0 <= i < r2.len() implies unique_conns(
                                (#[trigger] r2[i]).members@,
                            ) by {
                                if i == k {
                                    let m2 = r2[k as int].members@;
                                    assert forall|a: int, b: int| 0 <= a < b < m2.len() implies
                                        m2[a] != m2[b] by {
                                        if b < m2.len() - 1 {
                                            assert(mem0[a] != mem0[b]);
                                        } else {
                                            assert(!mem0.contains(msg.conn));
                                            assert(mem0[a] == m2[a]);
                                        }
                                    }
                                } else {
                                    assert(r2[i] == r1[i]);
                                }
                            }
                        }
                    },
                }
            },
        }
        match self.find_voice(msg.channel_id.as_str()) {
            None => Vec::new(),
            Some(v) => {
                let rs = RoomState { voice_users: self.voice_roster(v) };
                let payload = room_state_payload(&rs.voice_users);
                let mut effects: Vec<Effect> = Vec::new();
                effects.push(Effect::Deliver { conn: msg.conn, payload });
                effects
            },
        }
    }

    /// The distinct user ids of voice entry `v`, in order of first
    /// appearance.
    #[verifier::loop_isolation(false)]
    fn voice_roster(&self, v: usize) -> (roster: Vec<String>)
        requires
            v < self.voice@.len(),
        ensures
            str_views(roster@) == users_of(self.voice@[v as int].pairs@),
    {
        let pairs = &self.voice[v].pairs;
        let mut roster: Vec<String> = Vec::new();
        let mut i: usize = 0;
        while i < pairs.len()
            invariant
                i <= pairs@.len(),
                pairs@ == self.voice@[v as int].pairs@,
                v < self.voice@.len(),
                str_views(roster@) == users_of(pairs@.subrange(0, i as int)),
            decreases pairs@.len() - i,
        {
            let uid = &pairs[i].user_id;
            let seen = roster_contains(&roster, uid.as_str());
            proof {
                let pre = pairs@.subrange(0, i + 1);
                assert(pre.drop_last() =~= pairs@.subrange(0, i as int));
                assert(pre.last() == pairs@[i as int]);
                if seen {
                    let j = choose|j: int| 0 <= j < roster@.len() && (#[trigger] roster@[j])@
                        == uid@;
                    assert(str_views(roster@)[j] == uid@);
                    assert(str_views(roster@).contains(uid@));
                } else {
                    assert(forall|j: int|
                        0 <= j < roster@.len() ==> #[trigger] str_views(roster@)[j] == roster@[j]@);
                    assert(!str_views(roster@).contains(uid@));
                }
            }
            if !seen {
                let ghost before = roster@;
                roster.push(uid.clone());
                proof {
                    assert(str_views(roster@) =~= str_views(before).push(uid@));
                }
            }
            i = i + 1;
        }
        proof {
            assert(pairs@.subrange(0, pairs@.len() as int) =~= pairs@);
        }
        roster
    }

    /// Remove `conn` from the room's broadcast set; unknown rooms and
    /// absent members are silent no-ops.
    #[verifier::loop_isolation(false)]
    pub fn leave_room(&mut self, msg: Leave)
        requires
            old(self).wf(),
        ensures
            final(self).wf(),
            final(self).users == old(self).users,
            final(self).voice == old(self).voice,
            final(self).playback == old(self).playback,
            no_room(old(self).rooms@, msg.channel_id@) ==> *final(self) == *old(self),
            forall|k: int|
                room_at(old(self).rooms@, msg.channel_id@, k) ==> {
                    &&& final(self).rooms@.len() == old(self).rooms@.len()
                    &&& (forall|j: int|
                        0 <= j < old(self).rooms@.len() && j != k ==> #[trigger] final(self).rooms@[j] == old(self).rooms@[j])
                    &&& final(self).rooms@[k].room_id == old(self).rooms@[k].room_id
                    &&& (!old(self).rooms@[k].members@.contains(msg.conn) ==> final(self).rooms@[k].members@ == old(self).rooms@[k].members@)
                    &&& (forall|t: int|
                        0 <= t < old(self).rooms@[k].members@.len() && old(self).rooms@[k].members@[t] == msg.conn && (forall|j: int|
                            0 <= j < t ==> old(self).rooms@[k].members@[j] != msg.conn) ==> final(self).rooms@[k].members@ == old(self).rooms@[k].members@.remove(t))
                },
    {
        match self.find_room(msg.channel_id.as_str()) {
            None => {},
            Some(k) => {
                let ghost r1 = self.rooms@;
                let ghost mem0 = self.rooms@[k as int].members@;
                let mut t: usize = 0;
                while t < self.rooms[k].members.len()
                    invariant
                        t <= mem0.len(),
                        room_at(self.rooms@, msg.channel_id@, k as int),
                        k < self.rooms@.len(),
                        self.rooms@[k as int].members@ == mem0,
                        *self == *old(self),
                        forall|j: int| 0 <= j < t ==> mem0[j] != msg.conn,
                    decreases mem0.len() - t,
                {
                    if self.rooms[k].members[t] == msg.conn {
                        self.rooms[k].members.remove(t);
                        proof {
                            let r2 = self.rooms@;
                            assert(mem0[t as int] == msg.conn);
                            assert(r2[k as int].members@ =~= mem0.remove(t as int));
                            assert forall|i: int, j: int| 0 <= i < j < r2.len() implies (
                            #[trigger] r2[i]).room_id@ != (#[trigger] r2[j]).room_id@ by {
                                assert(r1[i].room_id@ != r1[j].room_id@);
                            }
                            assert forall|i: int| 0 <= i < r2.len() implies unique_conns(
                                (#[trigger] r2[i]).members@,
                            ) by {
                                if i == k {
                                    let m2 = r2[k as int].members@;
                                    assert forall|a: int, b: int| 0 <= a < b < m2.len() implies
                                        m2[a] != m2[b] by {
                                        let a0 = if a < t { a } else { a + 1 };
                                        let b0 = if b < t { b } else { b + 1 };
                                        assert(m2[a] == mem0[a0]);
                                        assert(m2[b] == mem0[b0]);
                                        assert(mem0[a0] != mem0[b0]);
                                    }
                                } else {
                                    assert(r2[i] == r1[i]);
                                }
                            }
                            assert forall|k2: int|
                                room_at(r1, msg.channel_id@, k2) implies k2 == k as int by {
                                lemma_room_at_unique(r1, msg.channel_id@, k2, k as int);
                            }
                        }
                        return ;
                    }
                    t = t + 1;
                }
            },
        }
    }

    /// Fan `payload` out to every member of the room, in membership
    /// order. A room with no entry or no members yields no effects and no
    /// error.
    #[verifier::loop_isolation(false)]
    pub fn broadcast(&self, msg: &Broadcast) -> (effects: Vec<Effect>)
        ensures
            no_room(self.rooms@, msg.channel_id@) ==> effects@.len() == 0,
            forall|k: int|
                room_at(self.rooms@, msg.channel_id@, k) ==> delivers_to(
                    self.rooms@[k].members@,
                    msg.payload@,
                    effects@,
                ),
    {
        match self.find_room(msg.channel_id.as_str()) {
            None => Vec::new(),
            Some(k) => {
                let members = &self.rooms[k].members;
                let mut effects: Vec<Effect> = Vec::new();
                let mut t: usize = 0;
                while t < members.len()
                    invariant
                        t <= members@.len(),
                        members@ == self.rooms@[k as int].members@,
                        k < self.rooms@.len(),
                        effects@.len() == t,
                        forall|j: int|
                            0 <= j < t ==> {
                                &&& (#[trigger] effects@[j]) is Deliver
                                &&& effects@[j]->Deliver_conn == members@[j]
                                &&& effects@[j]->Deliver_payload@ == msg.payload@
                            },
                    decreases members@.len() - t,
                {
                    effects.push(
                        Effect::Deliver { conn: members[t], payload: msg.payload.clone() },
                    );
                    t = t + 1;
                }
                effects
            },
        }
    }

    /// Deliver `payload` to every session of every listed user, skipping
    /// sessions whose connection is a member of `skip_room`. Unknown users
    /// are silent no-ops: every delivery goes to an unskipped session of a
    /// listed user, and every unskipped session of a listed user gets one.
    #[verifier::loop_isolation(false)]
    pub fn notify_users(
        &self,
        user_ids: &Vec<String>,
        payload: &String,
        skip_room: Option<&String>,
    ) -> (effects: Vec<Effect>)
        ensures
            forall|e: int|
                0 <= e < effects@.len() ==> {
                    &&& (#[trigger] effects@[e]) is Deliver
                    &&& effects@[e]->Deliver_payload@ == payload@
                    &&& !skipped_conn(self.rooms@, skip_room, effects@[e]->Deliver_conn)
                    &&& exists|u: int, k: int, t: int|
                        #![trigger user_at(self.users@, user_ids@[u]@, k), self.users@[k].sessions@[t]]
                        {
                            &&& 0 <= u < user_ids@.len()
                            &&& user_at(self.users@, user_ids@[u]@, k)
                            &&& 0 <= t < self.users@[k].sessions@.len()
                            &&& self.users@[k].sessions@[t].conn == effects@[e]->Deliver_conn
                        }
                },
            forall|u: int, k: int, t: int|
                #![trigger user_at(self.users@, user_ids@[u]@, k), self.users@[k].sessions@[t]]
                {
                    &&& 0 <= u < user_ids@.len()
                    &&& user_at(self.users@, user_ids@[u]@, k)
                    &&& 0 <= t < self.users@[k].sessions@.len()
                    &&& !skipped_conn(self.rooms@, skip_room, self.users@[k].sessions@[t].conn)
                } ==> exists|e: int|
                    0 <= e < effects@.len() && (#[trigger] effects@[e])->Deliver_conn
                        == self.users@[k].sessions@[t].conn,
    {
        let mut effects: Vec<Effect> = Vec::new();
        let mut u: usize = 0;
        while u < user_ids.len()
            invariant
                u <= user_ids@.len(),
                forall|e: int|
                    0 <= e < effects@.len() ==> {
                        &&& (#[trigger] effects@[e]) is Deliver
                        &&& effects@[e]->Deliver_payload@ == payload@
                        &&& !skipped_conn(self.rooms@, skip_room, effects@[e]->Deliver_conn)
                        &&& exists|u2: int, k: int, t: int|
                            #![trigger user_at(self.users@, user_ids@[u2]@, k), self.users@[k].sessions@[t]]
                            {
                                &&& 0 <= u2 < user_ids@.len()
                                &&& user_at(self.users@, user_ids@[u2]@, k)
                                &&& 0 <= t < self.users@[k].sessions@.len()
                                &&& self.users@[k].sessions@[t].conn == effects@[e]->Deliver_conn
                            }
                    },
                forall|u2: int, k: int, t: int|
                    #![trigger user_at(self.users@, user_ids@[u2]@, k), self.users@[k].sessions@[t]]
                    {
                        &&& 0 <= u2 < u
                        &&& user_at(self.users@, user_ids@[u2]@, k)
                        &&& 0 <= t < self.users@[k].sessions@.len()
                        &&& !skipped_conn(
                            self.rooms@,
                            skip_room,
                            self.users@[k].sessions@[t].conn,
                        )
                    } ==> exists|e: int|
                        0 <= e < effects@.len() && (#[trigger] effects@[e])->Deliver_conn
                            == self.users@[k].sessions@[t].conn,
            decreases user_ids@.len() - u,
        {
            match self.find_user(user_ids[u].as_str()) {
                None => {
                    proof {
                        assert forall|k: int|
                            user_at(self.users@, user_ids@[u as int]@, k) implies false by {
                            assert(self.users@[k].user_id@ == user_ids@[u as int]@);
                        }
                    }
                },
                Some(k) => {
                    proof {
                        assert forall|k2: int|
                            user_at(self.users@, user_ids@[u as int]@, k2) implies k2
                            == k as int by {
                            lemma_user_at_unique(self.users@, user_ids@[u as int]@, k2, k as int);
                        }
                    }
                    let nsess = self.users[k].sessions.len();
                    let mut t: usize = 0;
                    while t < nsess
                        invariant
                            t <= nsess,
                            k < self.users@.len(),
                            user_at(self.users@, user_ids@[u as int]@, k as int),
                            u < user_ids@.len(),
                            nsess == self.users@[k as int].sessions@.len(),
                            forall|e: int|
                                0 <= e < effects@.len() ==> {
                                    &&& (#[trigger] effects@[e]) is Deliver
                                    &&& effects@[e]->Deliver_payload@ == payload@
                                    &&& !skipped_conn(
                                        self.rooms@,
                                        skip_room,
                                        effects@[e]->Deliver_conn,
                                    )
                                    &&& exists|u2: int, k2: int, t2: int|
                                        #![trigger user_at(self.users@, user_ids@[u2]@, k2), self.users@[k2].sessions@[t2]]
                                        {
                                            &&& 0 <= u2 < user_ids@.len()
                                            &&& user_at(self.users@, user_ids@[u2]@, k2)
                                            &&& 0 <= t2 < self.users@[k2].sessions@.len()
                                            &&& self.users@[k2].sessions@[t2].conn
                                                == effects@[e]->Deliver_conn
                                        }
                                },
                            forall|u2: int, k2: int, t2: int|
                                #![trigger user_at(self.users@, user_ids@[u2]@, k2), self.users@[k2].sessions@[t2]]
                                {
                                    &&& 0 <= u2 < u
                                    &&& user_at(self.users@, user_ids@[u2]@, k2)
                                    &&& 0 <= t2 < self.users@[k2].sessions@.len()
                                    &&& !skipped_conn(
                                        self.rooms@,
                                        skip_room,
                                        self.users@[k2].sessions@[t2].conn,
                                    )
                                } ==> exists|e: int|
                                    0 <= e < effects@.len() && (
                                    #[trigger] effects@[e])->Deliver_conn
                                        == self.users@[k2].sessions@[t2].conn,
                            forall|t2: int|
                                #![trigger self.users@[k as int].sessions@[t2]]
                                {
                                    &&& 0 <= t2 < t
                                    &&& !skipped_conn(
                                        self.rooms@,
                                        skip_room,
                                        self.users@[k as int].sessions@[t2].conn,
                                    )
                                } ==> exists|e: int|
                                    0 <= e < effects@.len() && (
                                    #[trigger] effects@[e])->Deliver_conn
                                        == self.users@[k as int].sessions@[t2].conn,
                        decreases nsess - t,
                    {
                        let conn = self.users[k].sessions[t].conn;
                        let skip = match skip_room {
                            None => false,
                            Some(rid) => self.room_has_member(rid.as_str(), conn),
                        };
                        proof {
                            match skip_room {
                                None => {},
                                Some(rid) => {
                                    if !no_room(self.rooms@, rid@) {
                                        let j = choose|j: int|
                                            0 <= j < self.rooms@.len() && (
                                            #[trigger] self.rooms@[j]).room_id@ == rid@;
                                        lemma_room_at_exists(self.rooms@, rid@, j);
                                        let k2 = choose|k2: int|
                                            #[trigger] room_at(self.rooms@, rid@, k2);
                                        assert forall|k3: int|
                                            room_at(self.rooms@, rid@, k3) implies k3 == k2 by {
                                            lemma_room_at_unique(self.rooms@, rid@, k3, k2);
                                        }
                                    }
                                },
                            }
                            assert(skip == skipped_conn(self.rooms@, skip_room, conn));
                        }
                        if !skip {
                            let ghost before = effects@;
                            effects.push(Effect::Deliver { conn, payload: payload.clone() });
                            proof {
                                let n0 = before.len() as int;
                                assert(forall|e: int|
                                    0 <= e < n0 ==> #[trigger] effects@[e] == before[e]);
                                assert(effects@[n0]->Deliver_conn == conn);
                                assert forall|u2: int, k2: int, t2: int|
                                    #![trigger user_at(self.users@, user_ids@[u2]@, k2), self.users@[k2].sessions@[t2]]
                                    {
                                        &&& 0 <= u2 < u
                                        &&& user_at(self.users@, user_ids@[u2]@, k2)
                                        &&& 0 <= t2 < self.users@[k2].sessions@.len()
                                        &&& !skipped_conn(
                                            self.rooms@,
                                            skip_room,
                                            self.users@[k2].sessions@[t2].conn,
                                        )
                                    } implies exists|e: int|
                                    0 <= e < effects@.len() && (
                                    #[trigger] effects@[e])->Deliver_conn
                                        == self.users@[k2].sessions@[t2].conn by {
                                    let c2 = self.users@[k2].sessions@[t2].conn;
                                    let e0 = choose|e0: int|
                                        0 <= e0 < n0 && (#[trigger] before[e0])->Deliver_conn
                                            == c2;
                                    assert(effects@[e0]->Deliver_conn == c2);
                                }
                                assert forall|t2: int|
                                    #![trigger self.users@[k as int].sessions@[t2]]
                                    {
                                        &&& 0 <= t2 < t + 1
                                        &&& !skipped_conn(
                                            self.rooms@,
                                            skip_room,
                                            self.users@[k as int].sessions@[t2].conn,
                                        )
                                    } implies exists|e: int|
                                    0 <= e < effects@.len() && (
                                    #[trigger] effects@[e])->Deliver_conn
                                        == self.users@[k as int].sessions@[t2].conn by {
                                    let c2 = self.users@[k as int].sessions@[t2].conn;
                                    if t2 < t {
                                        let e0 = choose|e0: int|
                                            0 <= e0 < n0 && (
                                            #[trigger] before[e0])->Deliver_conn == c2;
                                        assert(effects@[e0]->Deliver_conn == c2);
                                    } else {
                                        assert(effects@[n0]->Deliver_conn == c2);
                                    }
                                }
                            }
                        }
                        t = t + 1;
                    }
                },
            }
            u = u + 1;
        }
        effects
    }

    /// True when `conn` is a member of room `rid`.
    fn room_has_member(&self, rid: &str, conn: u64) -> (r: bool)
        ensures
            no_room(self.rooms@, rid@) ==> r == false,
            forall|k: int|
                room_at(self.rooms@, rid@, k) ==> r == self.rooms@[k].members@.contains(conn),
    {
        match self.find_room(rid) {
            None => false,
            Some(k) => {
                proof {
                    assert forall|k2: int| room_at(self.rooms@, rid@, k2) implies k2
                        == k as int by {
                        lemma_room_at_unique(self.rooms@, rid@, k2, k as int);
                    }
                }
                match member_index(&self.rooms[k].members, conn) {
                    Some(t) => {
                        proof {
                            assert(self.rooms@[k as int].members@[t as int] == conn);
                        }
                        true
                    },
                    None => false,
                }
            },
        }
    }

    /// Deliver a call-negotiation payload to exactly one session of
    /// `to_user` when a session id is given — an unknown session is a
    /// silent no-op — else to all of the user's sessions.
    #[verifier::loop_isolation(false)]
    pub fn direct_signal(
        &self,
        to_user: &str,
        to_session: Option<&String>,
        payload: &String,
    ) -> (effects: Vec<Effect>)
        ensures
            no_user(self.users@, to_user@) ==> effects@.len() == 0,
            forall|k: int|
                user_at(self.users@, to_user@, k) ==> {
                    match to_session {
                        None => {
                            &&& effects@.len() == self.users@[k].sessions@.len()
                            &&& forall|t: int|
                                0 <= t < effects@.len() ==> {
                                    &&& (#[trigger] effects@[t]) is Deliver
                                    &&& effects@[t]->Deliver_conn
                                        == self.users@[k].sessions@[t].conn
                                    &&& effects@[t]->Deliver_payload@ == payload@
                                }
                        },
                        Some(sid) => {
                            &&& (no_session(self.users@[k].sessions@, sid@) ==> effects@.len()
                                == 0)
                            &&& forall|t: int|
                                session_at(self.users@[k].sessions@, sid@, t) ==> {
                                    &&& effects@.len() == 1
                                    &&& effects@[0] is Deliver
                                    &&& effects@[0]->Deliver_conn
                                        == self.users@[k].sessions@[t].conn
                                    &&& effects@[0]->Deliver_payload@ == payload@
                                }
                        },
                    }
                },
    {
        let mut effects: Vec<Effect> = Vec::new();
        match self.find_user(to_user) {
            None => {},
            Some(k) => {
                proof {
                    assert forall|k2: int| user_at(self.users@, to_user@, k2) implies k2
                        == k as int by {
                        lemma_user_at_unique(self.users@, to_user@, k2, k as int);
                    }
                }
                let sessions = &self.users[k].sessions;
                match to_session {
                    None => {
                        let mut t: usize = 0;
                        while t < sessions.len()
                            invariant
                                t <= sessions@.len(),
                                sessions@ == self.users@[k as int].sessions@,
                                k < self.users@.len(),
                                effects@.len() == t,
                                forall|j: int|
                                    0 <= j < t ==> {
                                        &&& (#[trigger] effects@[j]) is Deliver
                                        &&& effects@[j]->Deliver_conn == sessions@[j].conn
                                        &&& effects@[j]->Deliver_payload@ == payload@
                                    },
                            decreases sessions@.len() - t,
                        {
                            effects.push(
                                Effect::Deliver {
                                    conn: sessions[t].conn,
                                    payload: payload.clone(),
                                },
                            );
                            t = t + 1;
                        }
                    },
                    Some(sid) => {
                        let mut t: usize = 0;
                        while t < sessions.len()
                            invariant
                                t <= sessions@.len(),
                                sessions@ == self.users@[k as int].sessions@,
                                k < self.users@.len(),
                                effects@.len() == 0,
                                forall|j: int|
                                    0 <= j < t ==> (#[trigger] sessions@[j]).session_id@ != sid@,
                            decreases sessions@.len() - t,
                        {
                            if str_eq(sessions[t].session_id.as_str(), sid.as_str()) {
                                proof {
                                    assert(session_at(sessions@, sid@, t as int));
                                    assert forall|t2: int|
                                        session_at(sessions@, sid@, t2) implies t2 == t as int by {
                                        lemma_session_at_unique(sessions@, sid@, t2, t as int);
                                    }
                                }
                                effects.push(
                                    Effect::Deliver {
                                        conn: sessions[t].conn,
                                        payload: payload.clone(),
                                    },
                                );
                                return effects;
                            }
                            t = t + 1;
                        }
                    },
                }
            },
        }
        effects
    }
}

/// Index of the first occurrence of the (user, session) pair, if any.
fn pair_index(pairs: &Vec<VoicePair>, uid: &str, sid: &str) -> (r: Option<usize>)
        ensures
            match r {
                Some(t) => pair_at(pairs@, uid@, sid@, t as int),
                None => no_pair(pairs@, uid@, sid@),
            },
    {
        let mut t: usize = 0;
        while t < pairs.len()
            invariant
                t <= pairs@.len(),
                forall|j: int|
                    0 <= j < t ==> !((#[trigger] pairs@[j]).user_id@ == uid@
                        && pairs@[j].session_id@ == sid@),
            decreases pairs@.len() - t,
        {
            if str_eq(pairs[t].user_id.as_str(), uid) && str_eq(pairs[t].session_id.as_str(), sid) {
                return Some(t);
            }
            t = t + 1;
        }
        None
    }

    /// True when the user holds at least one session in the voice set.
    fn pairs_has_user(pairs: &Vec<VoicePair>, uid: &str) -> (r: bool)
        ensures
            r == user_in_call(pairs@, uid@),
    {
        let mut t: usize = 0;
        while t < pairs.len()
            invariant
                t <= pairs@.len(),
                forall|j: int| 0 <= j < t ==> (#[trigger] pairs@[j]).user_id@ != uid@,
            decreases pairs@.len() - t,
        {
            if str_eq(pairs[t].user_id.as_str(), uid) {
                proof {
                    assert(pairs@[t as int].user_id@ == uid@);
                }
                return true;
            }
            t = t + 1;
        }
        false
    }

    /// The file-deletion effects for every item of a torn-down queue.
    fn cleanup_for(state: &SharePlayState) -> (effects: Vec<Effect>)
        ensures
            effects@ == cleanup_effects(state.queue@),
    {
        let q = &state.queue;
        let mut effects: Vec<Effect> = Vec::new();
        let mut i: usize = 0;
        while i < q.len()
            invariant
                i <= q@.len(),
                q@ == state.queue@,
                effects@ == cleanup_effects(q@.subrange(0, i as int)),
            decreases q@.len() - i,
        {
            let ghost before = effects@;
            let it = &q[i];
            match &it.file_path {
                Some(p) => effects.push(Effect::DeleteFile { path: p.clone() }),
                None => {},
            }
            match &it.thumbnail_path {
                Some(p) => effects.push(Effect::DeleteFile { path: p.clone() }),
                None => {},
            }
            effects.push(Effect::DeleteByPrefix { prefix: it.id.clone() });
            proof {
                let pre = q@.subrange(0, i + 1);
                assert(pre.drop_last() =~= q@.subrange(0, i as int));
                assert(pre.last() == q@[i as int]);
                assert(effects@ =~= before + item_cleanup(q@[i as int]));
                assert(effects@ =~= cleanup_effects(pre));
            }
            i = i + 1;
        }
        proof {
            assert(q@.subrange(0, q@.len() as int) =~= q@);
        }
        effects
    }

impl ChatServer {
    /// A (user, session) pair enters the room call. The pair is inserted
    /// when absent; a voice_joined event is broadcast to the room exactly
    /// when this is the user's first session present; re-adding is a
    /// silent no-op.
    #[verifier::loop_isolation(false)]
    pub fn join_voice(&mut self, msg: JoinVoice) -> (effects: Vec<Effect>)
        requires
            old(self).wf(),
        ensures
            final(self).wf(),
            final(self).users == old(self).users,
            final(self).rooms == old(self).rooms,
            final(self).playback == old(self).playback,
            no_voice(old(self).voice@, msg.channel_id@) ==> {
                &&& final(self).voice@.len() == old(self).voice@.len() + 1
                &&& (forall|j: int|
                    0 <= j < old(self).voice@.len() ==> #[trigger] final(self).voice@[j] == old(self).voice@[j])
                &&& final(self).voice@.last().room_id == msg.channel_id
                &&& final(self).voice@.last().pairs@ == seq![
                    VoicePair { user_id: msg.user_id, session_id: msg.session_id },
                ]
                &&& broadcast_ok(
                    old(self).rooms@,
                    msg.channel_id@,
                    event_voice_joined(msg.channel_id@, msg.user_id@),
                    effects@,
                )
            },
            forall|v: int|
                voice_at(old(self).voice@, msg.channel_id@, v) ==> {
                    &&& final(self).voice@.len() == old(self).voice@.len()
                    &&& (forall|j: int|
                        0 <= j < old(self).voice@.len() && j != v ==> #[trigger] final(self).voice@[j] == old(self).voice@[j])
                    &&& final(self).voice@[v].room_id == old(self).voice@[v].room_id
                    &&& final(self).voice@[v].pairs@ == voice_join_pairs(
                        old(self).voice@[v].pairs@,
                        VoicePair { user_id: msg.user_id, session_id: msg.session_id },
                    )
                    &&& (!user_in_call(old(self).voice@[v].pairs@, msg.user_id@)
                        ==> broadcast_ok(
                        old(self).rooms@,
                        msg.channel_id@,
                        event_voice_joined(msg.channel_id@, msg.user_id@),
                        effects@,
                    ))
                    &&& (user_in_call(old(self).voice@[v].pairs@, msg.user_id@) ==> effects@.len()
                        == 0)
                },
    {
        match self.find_voice(msg.channel_id.as_str()) {
            None => {
                let payload = voice_joined_payload(msg.channel_id.as_str(), msg.user_id.as_str());
                let mut pairs: Vec<VoicePair> = Vec::new();
                pairs.push(VoicePair { user_id: msg.user_id, session_id: msg.session_id });
                let ghost v1 = self.voice@;
                let ghost rid_v = msg.channel_id@;
                let entry = VoiceEntry { room_id: msg.channel_id.clone(), pairs };
                self.voice.push(entry);
                proof {
                    let v2 = self.voice@;
                    assert forall|i: int, j: int| 0 <= i < j < v2.len() implies (
                    #[trigger] v2[i]).room_id@ != (#[trigger] v2[j]).room_id@ by {
                        if j == v2.len() - 1 {
                            assert(v1[i].room_id@ != rid_v);
                        }
                    }
                    assert forall|i: int| 0 <= i < v2.len() implies unique_pairs(
                        (#[trigger] v2[i]).pairs@,
                    ) by {
                        if i < v2.len() - 1 {
                            assert(v2[i] == v1[i]);
                        }
                    }
                }
                self.broadcast(&Broadcast { channel_id: msg.channel_id, payload })
            },
            Some(v) => {
                proof {
                    assert forall|v2: int| voice_at(self.voice@, msg.channel_id@, v2) implies v2
                        == v as int by {
                        lemma_voice_at_unique(self.voice@, msg.channel_id@, v2, v as int);
                    }
                }
                let present = pair_index(
                    &self.voice[v].pairs,
                    msg.user_id.as_str(),
                    msg.session_id.as_str(),
                );
                let in_call = pairs_has_user(&self.voice[v].pairs, msg.user_id.as_str());
                match present {
                    Some(_) => {
                        proof {
                            let pairs0 = self.voice@[v as int].pairs@;
                            assert(!no_pair(pairs0, msg.user_id@, msg.session_id@));
                        }
                        Vec::new()
                    },
                    None => {
                        let ghost v1 = self.voice@;
                        let ghost pairs0 = self.voice@[v as int].pairs@;
                        let uid2 = msg.user_id.clone();
                        self.voice[v].pairs.push(
                            VoicePair { user_id: msg.user_id, session_id: msg.session_id },
                        );
                        proof {
                            let v2 = self.voice@;
                            let p2 = v2[v as int].pairs@;
                            assert forall|i: int, j: int| 0 <= i < j < v2.len() implies (
                            #[trigger] v2[i]).room_id@ != (#[trigger] v2[j]).room_id@ by {
                                assert(v1[i].room_id@ != v1[j].room_id@);
                            }
                            assert forall|i: int| 0 <= i < v2.len() implies unique_pairs(
                                (#[trigger] v2[i]).pairs@,
                            ) by {
                                if i == v {
                                    assert forall|a: int, b: int| 0 <= a < b < p2.len() implies !((
                                    #[trigger] p2[a]).user_id@ == (#[trigger] p2[b]).user_id@
                                        && p2[a].session_id@ == p2[b].session_id@) by {
                                        if b < p2.len() - 1 {
                                            assert(!(pairs0[a].user_id@ == pairs0[b].user_id@
                                                && pairs0[a].session_id@
                                                == pairs0[b].session_id@));
                                        } else {
                                            assert(!(pairs0[a].user_id@ == p2[b].user_id@
                                                && pairs0[a].session_id@ == p2[b].session_id@));
                                        }
                                    }
                                } else {
                                    assert(v2[i] == v1[i]);
                                }
                            }
                        }
                        if in_call {
                            Vec::new()
                        } else {
                            let payload = voice_joined_payload(
                                msg.channel_id.as_str(),
                                uid2.as_str(),
                            );
                            self.broadcast(&Broadcast { channel_id: msg.channel_id, payload })
                        }
                    },
                }
            },
        }
    }

    /// A (user, session) pair leaves the room call. A voice_left event is
    /// broadcast exactly when it was the user's last session present; when
    /// the room's whole voice set empties, the room's playback state is
    /// torn down: its entry is removed, a shareplay_cleared event is
    /// broadcast, and every item's files are scheduled for deletion.
    /// Unknown rooms and absent pairs are silent no-ops.
    #[verifier::loop_isolation(false)]
    pub fn leave_voice(&mut self, msg: LeaveVoice) -> (effects: Vec<Effect>)
        requires
            old(self).wf(),
        ensures
            final(self).wf(),
            final(self).users == old(self).users,
            final(self).rooms == old(self).rooms,
            no_voice(old(self).voice@, msg.channel_id@) ==> *final(self) == *old(self)
                && effects@.len() == 0,
            forall|v: int|
                voice_at(old(self).voice@, msg.channel_id@, v) && no_pair(
                    old(self).voice@[v].pairs@,
                    msg.user_id@,
                    msg.session_id@,
                ) ==> *final(self) == *old(self) && effects@.len() == 0,
            forall|v: int, t: int|
                voice_at(old(self).voice@, msg.channel_id@, v) && pair_at(
                    old(self).voice@[v].pairs@,
                    msg.user_id@,
                    msg.session_id@,
                    t,
                ) && old(self).voice@[v].pairs@.len() > 1 ==> {
                    &&& final(self).playback == old(self).playback
                    &&& final(self).voice@.len() == old(self).voice@.len()
                    &&& (forall|j: int|
                        0 <= j < old(self).voice@.len() && j != v ==> #[trigger] final(self).voice@[j] == old(self).voice@[j])
                    &&& final(self).voice@[v].room_id == old(self).voice@[v].room_id
                    &&& final(self).voice@[v].pairs@ == old(self).voice@[v].pairs@.remove(t)
                    &&& (user_in_call(old(self).voice@[v].pairs@.remove(t), msg.user_id@)
                        ==> effects@.len() == 0)
                    &&& (!user_in_call(old(self).voice@[v].pairs@.remove(t), msg.user_id@)
                        ==> broadcast_ok(
                        old(self).rooms@,
                        msg.channel_id@,
                        event_voice_left(msg.channel_id@, msg.user_id@),
                        effects@,
                    ))
                },
            forall|v: int, t: int|
                voice_at(old(self).voice@, msg.channel_id@, v) && pair_at(
                    old(self).voice@[v].pairs@,
                    msg.user_id@,
                    msg.session_id@,
                    t,
                ) && old(self).voice@[v].pairs@.len() == 1 ==> {
                    &&& final(self).voice@ == old(self).voice@.remove(v)
                    &&& (no_pb(old(self).playback@, msg.channel_id@) ==> final(self).playback
                        == old(self).playback && broadcast_ok(
                        old(self).rooms@,
                        msg.channel_id@,
                        event_voice_left(msg.channel_id@, msg.user_id@),
                        effects@,
                    ))
                    &&& (forall|p: int|
                        pb_at(old(self).playback@, msg.channel_id@, p) ==> {
                            &&& final(self).playback@ == old(self).playback@.remove(p)
                            &&& teardown_effects_ok(
                                old(self).rooms@,
                                msg.channel_id@,
                                msg.user_id@,
                                old(self).playback@[p].state,
                                effects@,
                            )
                        })
                },
    {
        match self.find_voice(msg.channel_id.as_str()) {
            None => Vec::new(),
            Some(v) => {
                proof {
                    assert forall|v2: int| voice_at(self.voice@, msg.channel_id@, v2) implies v2
                        == v as int by {
                        lemma_voice_at_unique(self.voice@, msg.channel_id@, v2, v as int);
                    }
                }
                match pair_index(
                    &self.voice[v].pairs,
                    msg.user_id.as_str(),
                    msg.session_id.as_str(),
                ) {
                    None => Vec::new(),
                    Some(t) => {
                        proof {
                            assert forall|t2: int|
                                pair_at(
                                    self.voice@[v as int].pairs@,
                                    msg.user_id@,
                                    msg.session_id@,
                                    t2,
                                ) implies t2 == t as int by {
                                lemma_pair_at_unique(
                                    self.voice@[v as int].pairs@,
                                    msg.user_id@,
                                    msg.session_id@,
                                    t2,
                                    t as int,
                                );
                            }
                        }
                        let ghost v1 = self.voice@;
                        let ghost pairs0 = self.voice@[v as int].pairs@;
                        self.voice[v].pairs.remove(t);
                        proof {
                            let v2 = self.voice@;
                            let p2 = v2[v as int].pairs@;
                            assert(p2 =~= pairs0.remove(t as int));
                            assert forall|i: int, j: int| 0 <= i < j < v2.len() implies (
                            #[trigger] v2[i]).room_id@ != (#[trigger] v2[j]).room_id@ by {
                                assert(v1[i].room_id@ != v1[j].room_id@);
                            }
                            assert forall|i: int| 0 <= i < v2.len() implies unique_pairs(
                                (#[trigger] v2[i]).pairs@,
                            ) by {
                                if i == v {
                                    assert forall|a: int, b: int| 0 <= a < b < p2.len() implies !((
                                    #[trigger] p2[a]).user_id@ == (#[trigger] p2[b]).user_id@
                                        && p2[a].session_id@ == p2[b].session_id@) by {
                                        let a0 = if a < t { a } else { a + 1 };
                                        let b0 = if b < t { b } else { b + 1 };
                                        assert(p2[a] == pairs0[a0]);
                                        assert(p2[b] == pairs0[b0]);
                                        assert(!(pairs0[a0].user_id@ == pairs0[b0].user_id@
                                            && pairs0[a0].session_id@
                                            == pairs0[b0].session_id@));
                                    }
                                } else {
                                    assert(v2[i] == v1[i]);
                                }
                            }
                        }
                        if self.voice[v].pairs.len() == 0 {
                            let ghost v2 = self.voice@;
                            self.voice.remove(v);
                            proof {
                                let v3 = self.voice@;
                                assert(v3 =~= v2.remove(v as int));
                                assert forall|i: int, j: int| 0 <= i < j < v3.len() implies (
                                #[trigger] v3[i]).room_id@ != (#[trigger] v3[j]).room_id@ by {
                                    let i0 = if i < v { i } else { i + 1 };
                                    let j0 = if j < v { j } else { j + 1 };
                                    assert(v3[i] == v2[i0]);
                                    assert(v3[j] == v2[j0]);
                                    assert(v2[i0].room_id@ != v2[j0].room_id@);
                                }
                                assert forall|i: int| 0 <= i < v3.len() implies unique_pairs(
                                    (#[trigger] v3[i]).pairs@,
                                ) by {
                                    let i0 = if i < v { i } else { i + 1 };
                                    assert(v3[i] == v2[i0]);
                                }
                                assert(self.voice@ =~= old(self).voice@.remove(v as int));
                            }
                            let payload_left = voice_left_payload(
                                msg.channel_id.as_str(),
                                msg.user_id.as_str(),
                            );
                            let mut effects = self.broadcast(
                                &Broadcast {
                                    channel_id: msg.channel_id.clone(),
                                    payload: payload_left,
                                },
                            );
                            let ghost e_left = effects@;
                            match self.find_pb(msg.channel_id.as_str()) {
                                None => effects,
                                Some(p) => {
                                    proof {
                                        assert forall|p2: int|
                                            pb_at(
                                                self.playback@,
                                                msg.channel_id@,
                                                p2,
                                            ) implies p2 == p as int by {
                                            lemma_pb_at_unique(
                                                self.playback@,
                                                msg.channel_id@,
                                                p2,
                                                p as int,
                                            );
                                        }
                                    }
                                    let ghost pb1 = self.playback@;
                                    let entry = self.playback.remove(p);
                                    proof {
                                        let pb2 = self.playback@;
                                        assert(pb2 =~= pb1.remove(p as int));
                                        assert forall|i: int, j: int|
                                            0 <= i < j < pb2.len() implies (
                                        #[trigger] pb2[i]).room_id@ != (
                                        #[trigger] pb2[j]).room_id@ by {
                                            let i0 = if i < p { i } else { i + 1 };
                                            let j0 = if j < p { j } else { j + 1 };
                                            assert(pb2[i] == pb1[i0]);
                                            assert(pb2[j] == pb1[j0]);
                                            assert(pb1[i0].room_id@ != pb1[j0].room_id@);
                                        }
                                        assert forall|i: int| 0 <= i < pb2.len() implies (
                                        #[trigger] pb2[i]).state.wf() by {
                                            let i0 = if i < p { i } else { i + 1 };
                                            assert(pb2[i] == pb1[i0]);
                                        }
                                    }
                                    let payload_cleared = shareplay_cleared_payload(
                                        msg.channel_id.as_str(),
                                    );
                                    let mut cleared = self.broadcast(
                                        &Broadcast {
                                            channel_id: msg.channel_id,
                                            payload: payload_cleared,
                                        },
                                    );
                                    let ghost e_cleared = cleared@;
                                    effects.append(&mut cleared);
                                    let mut dels = cleanup_for(&entry.state);
                                    let ghost e_dels = dels@;
                                    effects.append(&mut dels);
                                    proof {
                                        let n1 = e_left.len() as int;
                                        let n2 = n1 + e_cleared.len() as int;
                                        assert(effects@.subrange(0, n1) =~= e_left);
                                        assert(effects@.subrange(n1, n2) =~= e_cleared);
                                        assert(effects@.subrange(n2, effects@.len() as int)
                                            =~= e_dels);
                                        assert(broadcast_ok(
                                            old(self).rooms@,
                                            msg.channel_id@,
                                            event_voice_left(msg.channel_id@, msg.user_id@),
                                            effects@.subrange(0, n1),
                                        ));
                                        assert(broadcast_ok(
                                            old(self).rooms@,
                                            msg.channel_id@,
                                            event_shareplay_cleared(msg.channel_id@),
                                            effects@.subrange(n1, n2),
                                        ));
                                        assert(effects@.subrange(n2, effects@.len() as int)
                                            == cleanup_effects(entry.state.queue@));
                                        assert(teardown_effects_ok(
                                            old(self).rooms@,
                                            msg.channel_id@,
                                            msg.user_id@,
                                            entry.state,
                                            effects@,
                                        ));
                                    }
                                    effects
                                },
                            }
                        } else {
                            let still = pairs_has_user(&self.voice[v].pairs, msg.user_id.as_str());
                            if still {
                                Vec::new()
                            } else {
                                let payload = voice_left_payload(
                                    msg.channel_id.as_str(),
                                    msg.user_id.as_str(),
                                );
                                self.broadcast(
                                    &Broadcast { channel_id: msg.channel_id, payload },
                                )
                            }
                        }
                    },
                }
            },
        }
    }

    /// Apply one clock-side playback command for a room, creating the
    /// room's playback state on first use, and broadcast the updated
    /// state exactly when the command changed material state.
    #[verifier::loop_isolation(false)]
    pub fn playback_action(&mut self, channel_id: &str, action: PlaybackAction, now: u64) -> (effects: Vec<Effect>)
        requires
            old(self).wf(),
        ensures
            final(self).wf(),
            final(self).users == old(self).users,
            final(self).rooms == old(self).rooms,
            final(self).voice == old(self).voice,
            no_pb(old(self).playback@, channel_id@) ==> {
                &&& final(self).playback@.len() == old(self).playback@.len() + 1
                &&& (forall|j: int|
                    0 <= j < old(self).playback@.len() ==> #[trigger] final(self).playback@[j]
                        == old(self).playback@[j])
                &&& final(self).playback@.last().room_id@ == channel_id@
                &&& (exists|s0: SharePlayState|
                    empty_playback(s0) && final(self).playback@.last().state == apply_action(
                        s0,
                        action,
                        now,
                    ) && (action_changes(s0, action, now) ==> broadcast_ok(
                        old(self).rooms@,
                        channel_id@,
                        event_shareplay_update(channel_id@, final(self).playback@.last().state),
                        effects@,
                    )) && (!action_changes(s0, action, now) ==> effects@.len() == 0))
            },
            forall|p: int|
                pb_at(old(self).playback@, channel_id@, p) ==> {
                    &&& final(self).playback@.len() == old(self).playback@.len()
                    &&& (forall|j: int|
                        0 <= j < old(self).playback@.len() && j != p ==> #[trigger] final(self).playback@[j] == old(self).playback@[j])
                    &&& final(self).playback@[p].room_id == old(self).playback@[p].room_id
                    &&& final(self).playback@[p].state == apply_action(
                        old(self).playback@[p].state,
                        action,
                        now,
                    )
                    &&& (action_changes(old(self).playback@[p].state, action, now)
                        ==> broadcast_ok(
                        old(self).rooms@,
                        channel_id@,
                        event_shareplay_update(channel_id@, final(self).playback@[p].state),
                        effects@,
                    ))
                    &&& (!action_changes(old(self).playback@[p].state, action, now)
                        ==> effects@.len() == 0)
                },
    {
        match self.find_pb(channel_id) {
            Some(p) => {
                proof {
                    assert forall|p2: int| pb_at(self.playback@, channel_id@, p2) implies p2
                        == p as int by {
                        lemma_pb_at_unique(self.playback@, channel_id@, p2, p as int);
                    }
                }
                let ghost pb1 = self.playback@;
                let st = &mut self.playback[p].state;
                let changed = match action {
                    PlaybackAction::Play => st.play(now),
                    PlaybackAction::Pause => st.pause(now),
                    PlaybackAction::Next => st.next(now),
                    PlaybackAction::Prev => st.prev(now),
                    PlaybackAction::Seek { position_ms } => {
                        st.seek(position_ms, now);
                        true
                    },
                    PlaybackAction::SetTrack { index } => st.set_track(index, now),
                    PlaybackAction::ToggleRepeat => {
                        st.toggle_repeat();
                        true
                    },
                };
                proof {
                    let pb2 = self.playback@;
                    assert forall|i: int, j: int| 0 <= i < j < pb2.len() implies (
                    #[trigger] pb2[i]).room_id@ != (#[trigger] pb2[j]).room_id@ by {
                        assert(pb1[i].room_id@ != pb1[j].room_id@);
                    }
                    assert forall|i: int| 0 <= i < pb2.len() implies (
                    #[trigger] pb2[i]).state.wf() by {
                        if i != p {
                            assert(pb2[i] == pb1[i]);
                        }
                    }
                }
                if changed {
                    let payload = shareplay_update_payload(channel_id, &self.playback[p].state);
                    self.broadcast(&Broadcast { channel_id: channel_id.to_owned(), payload })
                } else {
                    Vec::new()
                }
            },
            None => {
                let mut s = SharePlayState::new();
                let ghost s0 = s;
                let changed = match action {
                    PlaybackAction::Play => s.play(now),
                    PlaybackAction::Pause => s.pause(now),
                    PlaybackAction::Next => s.next(now),
                    PlaybackAction::Prev => s.prev(now),
                    PlaybackAction::Seek { position_ms } => {
                        s.seek(position_ms, now);
                        true
                    },
                    PlaybackAction::SetTrack { index } => s.set_track(index, now),
                    PlaybackAction::ToggleRepeat => {
                        s.toggle_repeat();
                        true
                    },
                };
                proof {
                    assert(empty_playback(s0));
                    assert(s == apply_action(s0, action, now));
                    assert(changed == action_changes(s0, action, now));
                }
                let payload = if changed {
                    Some(shareplay_update_payload(channel_id, &s))
                } else {
                    None
                };
                let ghost pb1 = self.playback@;
                let ghost rid_v = channel_id@;
                self.playback.push(PlaybackEntry { room_id: channel_id.to_owned(), state: s });
                proof {
                    let pb2 = self.playback@;
                    assert forall|i: int, j: int| 0 <= i < j < pb2.len() implies (
                    #[trigger] pb2[i]).room_id@ != (#[trigger] pb2[j]).room_id@ by {
                        if j == pb2.len() - 1 {
                            assert(pb1[i].room_id@ != rid_v);
                        }
                    }
                    assert forall|i: int| 0 <= i < pb2.len() implies (
                    #[trigger] pb2[i]).state.wf() by {
                        if i < pb2.len() - 1 {
                            assert(pb2[i] == pb1[i]);
                        }
                    }
                }
                match payload {
                    Some(pl) => self.broadcast(
                        &Broadcast { channel_id: channel_id.to_owned(), payload: pl },
                    ),
                    None => Vec::new(),
                }
            },
        }
    }

    /// Register the connection under a fresh random device-session id and
    /// tell the connection its id with a connection_metadata event.
    pub fn connect(&mut self, user_id: String, conn: u64) -> (r: (String, Vec<Effect>))
        requires
            old(self).wf(),
        ensures
            final(self).wf(),
            register_rel(*old(self), *final(self), user_id, r.0, conn),
            r.1@.len() == 1,
            r.1@[0] is Deliver,
            r.1@[0]->Deliver_conn == conn,
            r.1@[0]->Deliver_payload@ == event_connection_metadata(r.0@),
    {
        let session_id = crate::external::fresh_item_id();
        let payload = connection_metadata_payload(session_id.as_str());
        self.register(user_id, session_id.clone(), conn);
        let mut effects: Vec<Effect> = Vec::new();
        effects.push(Effect::Deliver { conn, payload });
        (session_id, effects)
    }

    /// Append a Pending queue item for `url` in the room, creating the
    /// room's playback state on first use; then fill the open download
    /// slots, broadcast the updated state, and hand back one acquisition
    /// job per newly marked item. Returns the fresh item id.
    #[verifier::loop_isolation(false)]
    pub fn shareplay_add(&mut self, channel_id: &str, url: String) -> (r: (String, Vec<Effect>))
        requires
            old(self).wf(),
        ensures
            final(self).wf(),
            final(self).users == old(self).users,
            final(self).rooms == old(self).rooms,
            final(self).voice == old(self).voice,
            no_pb(old(self).playback@, channel_id@) ==> {
                &&& final(self).playback@.len() == old(self).playback@.len() + 1
                &&& (forall|j: int|
                    0 <= j < old(self).playback@.len() ==> #[trigger] final(self).playback@[j]
                        == old(self).playback@[j])
                &&& final(self).playback@.last().room_id@ == channel_id@
                &&& (exists|s0: SharePlayState, mid: SharePlayState, jobs: Seq<usize>|
                    empty_playback(s0) && add_rel(s0, mid, url, r.0) && schedule_rel(
                        mid,
                        final(self).playback@.last().state,
                        jobs,
                    ) && update_then_jobs_ok(
                        old(self).rooms@,
                        channel_id@,
                        final(self).playback@.last().state,
                        jobs,
                        r.1@,
                    ))
            },
            forall|p: int|
                pb_at(old(self).playback@, channel_id@, p) ==> {
                    &&& final(self).playback@.len() == old(self).playback@.len()
                    &&& (forall|j: int|
                        0 <= j < old(self).playback@.len() && j != p ==> #[trigger] final(self).playback@[j] == old(self).playback@[j])
                    &&& final(self).playback@[p].room_id == old(self).playback@[p].room_id
                    &&& (exists|mid: SharePlayState, jobs: Seq<usize>|
                        add_rel(old(self).playback@[p].state, mid, url, r.0) && schedule_rel(
                            mid,
                            final(self).playback@[p].state,
                            jobs,
                        ) && update_then_jobs_ok(
                            old(self).rooms@,
                            channel_id@,
                            final(self).playback@[p].state,
                            jobs,
                            r.1@,
                        ))
                },
    {
        match self.find_pb(channel_id) {
            Some(p) => {
                proof {
                    assert forall|p2: int| pb_at(self.playback@, channel_id@, p2) implies p2
                        == p as int by {
                        lemma_pb_at_unique(self.playback@, channel_id@, p2, p as int);
                    }
                }
                let ghost pb1 = self.playback@;
                let st = &mut self.playback[p].state;
                let id = st.add_item(url);
                let ghost mid = *st;
                let jobs = st.schedule();
                proof {
                    let pb2 = self.playback@;
                    assert forall|i: int, j: int| 0 <= i < j < pb2.len() implies (
                    #[trigger] pb2[i]).room_id@ != (#[trigger] pb2[j]).room_id@ by {
                        assert(pb1[i].room_id@ != pb1[j].room_id@);
                    }
                    assert forall|i: int| 0 <= i < pb2.len() implies (
                    #[trigger] pb2[i]).state.wf() by {
                        if i != p {
                            assert(pb2[i] == pb1[i]);
                        }
                    }
                }
                let payload = shareplay_update_payload(channel_id, &self.playback[p].state);
                let mut effects = self.broadcast(
                    &Broadcast { channel_id: channel_id.to_owned(), payload },
                );
                let ghost e_b = effects@;
                let mut acq = acquisition_effects(channel_id, &self.playback[p].state, &jobs);
                let ghost e_a = acq@;
                effects.append(&mut acq);
                proof {
                    let n1 = e_b.len() as int;
                    assert(effects@.subrange(0, n1) =~= e_b);
                    assert(effects@.subrange(n1, effects@.len() as int) =~= e_a);
                    assert(update_then_jobs_ok(
                        old(self).rooms@,
                        channel_id@,
                        self.playback@[p as int].state,
                        jobs@,
                        effects@,
                    ));
                }
                (id, effects)
            },
            None => {
                let mut s = SharePlayState::new();
                let ghost s0 = s;
                let id = s.add_item(url);
                let ghost mid = s;
                let jobs = s.schedule();
                let payload = shareplay_update_payload(channel_id, &s);
                let acq0 = acquisition_effects(channel_id, &s, &jobs);
                let ghost pb1 = self.playback@;
                let ghost rid_v = channel_id@;
                self.playback.push(PlaybackEntry { room_id: channel_id.to_owned(), state: s });
                proof {
                    let pb2 = self.playback@;
                    assert forall|i: int, j: int| 0 <= i < j < pb2.len() implies (
                    #[trigger] pb2[i]).room_id@ != (#[trigger] pb2[j]).room_id@ by {
                        if j == pb2.len() - 1 {
                            assert(pb1[i].room_id@ != rid_v);
                        }
                    }
                    assert forall|i: int| 0 <= i < pb2.len() implies (
                    #[trigger] pb2[i]).state.wf() by {
                        if i < pb2.len() - 1 {
                            assert(pb2[i] == pb1[i]);
                        }
                    }
                }
                let mut effects = self.broadcast(
                    &Broadcast { channel_id: channel_id.to_owned(), payload },
                );
                let ghost e_b = effects@;
                let mut acq = acq0;
                let ghost e_a = acq@;
                effects.append(&mut acq);
                proof {
                    let n1 = e_b.len() as int;
                    assert(effects@.subrange(0, n1) =~= e_b);
                    assert(effects@.subrange(n1, effects@.len() as int) =~= e_a);
                    assert(update_then_jobs_ok(
                        old(self).rooms@,
                        channel_id@,
                        self.playback@.last().state,
                        jobs@,
                        effects@,
                    ));
                    assert(empty_playback(s0));
                    assert(add_rel(s0, mid, url, id));
                    assert(schedule_rel(mid, self.playback@.last().state, jobs@));
                }
                (id, effects)
            },
        }
    }

    /// Remove the queue item at `index` in the room: a no-op for unknown
    /// rooms or out-of-range indices, else the engine's removal followed
    /// by an updated-state broadcast and the removed item's file
    /// deletions.
    #[verifier::loop_isolation(false)]
    pub fn shareplay_remove(&mut self, channel_id: &str, index: usize, now: u64) -> (effects: Vec<
        Effect,
    >)
        requires
            old(self).wf(),
        ensures
            final(self).wf(),
            final(self).users == old(self).users,
            final(self).rooms == old(self).rooms,
            final(self).voice == old(self).voice,
            no_pb(old(self).playback@, channel_id@) ==> *final(self) == *old(self)
                && effects@.len() == 0,
            forall|p: int|
                pb_at(old(self).playback@, channel_id@, p) ==> {
                    &&& final(self).playback@.len() == old(self).playback@.len()
                    &&& (forall|j: int|
                        0 <= j < old(self).playback@.len() && j != p ==> #[trigger] final(self).playback@[j] == old(self).playback@[j])
                    &&& final(self).playback@[p].room_id == old(self).playback@[p].room_id
                    &&& (index >= old(self).playback@[p].state.queue@.len() ==> final(self).playback@[p].state == old(self).playback@[p].state && effects@.len()
                        == 0)
                    &&& (index < old(self).playback@[p].state.queue@.len() ==> {
                        &&& remove_rel(
                            old(self).playback@[p].state,
                            final(self).playback@[p].state,
                            index,
                            now,
                            Some(old(self).playback@[p].state.queue@[index as int]),
                        )
                        &&& (exists|n1: int|
                            {
                                &&& 0 <= n1 <= effects@.len()
                                &&& broadcast_ok(
                                    old(self).rooms@,
                                    channel_id@,
                                    event_shareplay_update(
                                        channel_id@,
                                        final(self).playback@[p].state,
                                    ),
                                    effects@.subrange(0, n1),
                                )
                                &&& effects@.subrange(n1, effects@.len() as int) == item_cleanup(
                                    old(self).playback@[p].state.queue@[index as int],
                                )
                            })
                    })
                },
    {
        match self.find_pb(channel_id) {
            None => Vec::new(),
            Some(p) => {
                proof {
                    assert forall|p2: int| pb_at(self.playback@, channel_id@, p2) implies p2
                        == p as int by {
                        lemma_pb_at_unique(self.playback@, channel_id@, p2, p as int);
                    }
                }
                let ghost pb1 = self.playback@;
                let st = &mut self.playback[p].state;
                let removed = st.remove_item(index, now);
                proof {
                    let pb2 = self.playback@;
                    assert forall|i: int, j: int| 0 <= i < j < pb2.len() implies (
                    #[trigger] pb2[i]).room_id@ != (#[trigger] pb2[j]).room_id@ by {
                        assert(pb1[i].room_id@ != pb1[j].room_id@);
                    }
                    assert forall|i: int| 0 <= i < pb2.len() implies (
                    #[trigger] pb2[i]).state.wf() by {
                        if i != p {
                            assert(pb2[i] == pb1[i]);
                        }
                    }
                }
                match removed {
                    None => Vec::new(),
                    Some(item) => {
                        let payload = shareplay_update_payload(
                            channel_id,
                            &self.playback[p].state,
                        );
                        let mut effects = self.broadcast(
                            &Broadcast { channel_id: channel_id.to_owned(), payload },
                        );
                        let ghost e_b = effects@;
                        let ghost dels0: Seq<Effect> = item_cleanup(item);
                        match &item.file_path {
                            Some(f) => effects.push(Effect::DeleteFile { path: f.clone() }),
                            None => {},
                        }
                        match &item.thumbnail_path {
                            Some(f) => effects.push(Effect::DeleteFile { path: f.clone() }),
                            None => {},
                        }
                        effects.push(Effect::DeleteByPrefix { prefix: item.id.clone() });
                        proof {
                            let n1 = e_b.len() as int;
                            assert(effects@.subrange(0, n1) =~= e_b);
                            assert(effects@.subrange(n1, effects@.len() as int) =~= dels0);
                            assert(self.rooms == old(self).rooms);
                            assert(no_room(old(self).rooms@, channel_id@) ==> e_b.len() == 0);
                            assert(forall|k: int|
                                room_at(old(self).rooms@, channel_id@, k) ==> delivers_to(
                                    old(self).rooms@[k].members@,
                                    event_shareplay_update(
                                        channel_id@,
                                        self.playback@[p as int].state,
                                    ),
                                    e_b,
                                ));
                            assert(broadcast_ok(
                                old(self).rooms@,
                                channel_id@,
                                event_shareplay_update(
                                    channel_id@,
                                    self.playback@[p as int].state,
                                ),
                                effects@.subrange(0, n1),
                            ));
                        }
                        effects
                    },
                }
            },
        }
    }

    /// Feed back a metadata result: on success the item takes its
    /// resolved title, duration and thumbnail and starts downloading; on
    /// failure the item turns Error, its slot frees and the open slots
    /// are refilled. Stale results change nothing and emit nothing.
    #[verifier::loop_isolation(false)]
    pub fn handle_metadata_result(&mut self, msg: SharePlayMetadataResult) -> (effects: Vec<
        Effect,
    >)
        requires
            old(self).wf(),
        ensures
            final(self).wf(),
            final(self).users == old(self).users,
            final(self).rooms == old(self).rooms,
            final(self).voice == old(self).voice,
            no_pb(old(self).playback@, msg.channel_id@) ==> *final(self) == *old(self)
                && effects@.len() == 0,
            forall|p: int|
                pb_at(old(self).playback@, msg.channel_id@, p) ==> {
                    &&& final(self).playback@.len() == old(self).playback@.len()
                    &&& (forall|j: int|
                        0 <= j < old(self).playback@.len() && j != p ==> #[trigger] final(self).playback@[j] == old(self).playback@[j])
                    &&& final(self).playback@[p].room_id == old(self).playback@[p].room_id
                    &&& (msg.success ==> exists|ch: bool|
                        {
                            &&& metadata_rel(
                                old(self).playback@[p].state,
                                final(self).playback@[p].state,
                                msg.id@,
                                msg.title,
                                msg.duration,
                                msg.thumbnail_path,
                                ch,
                            )
                            &&& (ch ==> broadcast_ok(
                                old(self).rooms@,
                                msg.channel_id@,
                                event_shareplay_update(
                                    msg.channel_id@,
                                    final(self).playback@[p].state,
                                ),
                                effects@,
                            ))
                            &&& (!ch ==> effects@.len() == 0)
                        })
                    &&& (!msg.success ==> exists|emsg: String, ch: bool, mid: SharePlayState|
                        {
                            &&& (msg.error is Some ==> emsg == msg.error->0)
                            &&& (msg.error is None ==> emsg@ == "acquisition failed"@)
                            &&& #[trigger] error_rel(
                                old(self).playback@[p].state,
                                mid,
                                msg.id@,
                                emsg,
                                ch,
                            )
                            &&& (ch ==> exists|jobs: Seq<usize>|
                                #[trigger] schedule_rel(
                                    mid,
                                    final(self).playback@[p].state,
                                    jobs,
                                ) && update_then_jobs_ok(
                                    old(self).rooms@,
                                    msg.channel_id@,
                                    final(self).playback@[p].state,
                                    jobs,
                                    effects@,
                                ))
                            &&& (!ch ==> final(self).playback@[p].state == mid
                                && effects@.len() == 0)
                        })
                },
    {
        match self.find_pb(msg.channel_id.as_str()) {
            None => Vec::new(),
            Some(p) => {
                proof {
                    assert forall|p2: int| pb_at(self.playback@, msg.channel_id@, p2) implies p2
                        == p as int by {
                        lemma_pb_at_unique(self.playback@, msg.channel_id@, p2, p as int);
                    }
                }
                let ghost pb1 = self.playback@;
                if msg.success {
                    let st = &mut self.playback[p].state;
                    let ch = st.update_item_metadata(
                        msg.id.as_str(),
                        msg.title,
                        msg.duration,
                        msg.thumbnail_path,
                    );
                    proof {
                        let pb2 = self.playback@;
                        assert forall|i: int, j: int| 0 <= i < j < pb2.len() implies (
                        #[trigger] pb2[i]).room_id@ != (#[trigger] pb2[j]).room_id@ by {
                            assert(pb1[i].room_id@ != pb1[j].room_id@);
                        }
                        assert forall|i: int| 0 <= i < pb2.len() implies (
                        #[trigger] pb2[i]).state.wf() by {
                            if i != p {
                                assert(pb2[i] == pb1[i]);
                            }
                        }
                    }
                    if ch {
                        let payload = shareplay_update_payload(
                            msg.channel_id.as_str(),
                            &self.playback[p].state,
                        );
                        self.broadcast(&Broadcast { channel_id: msg.channel_id, payload })
                    } else {
                        Vec::new()
                    }
                } else {
                    let emsg = match msg.error {
                        Some(e) => e,
                        None => "acquisition failed".to_owned(),
                    };
                    let ghost emsg_g = emsg;
                    let st = &mut self.playback[p].state;
                    let ch = st.update_item_error(msg.id.as_str(), emsg);
                    let ghost mid = *st;
                    if ch {
                        let jobs = st.schedule();
                        let ghost fin = *st;
                        proof {
                            assert(schedule_rel(mid, fin, jobs@));
                            let pb2 = self.playback@;
                            assert(pb2[p as int].state == fin);
                            assert forall|i: int, j: int| 0 <= i < j < pb2.len() implies (
                            #[trigger] pb2[i]).room_id@ != (#[trigger] pb2[j]).room_id@ by {
                                assert(pb1[i].room_id@ != pb1[j].room_id@);
                            }
                            assert forall|i: int| 0 <= i < pb2.len() implies (
                            #[trigger] pb2[i]).state.wf() by {
                                if i != p {
                                    assert(pb2[i] == pb1[i]);
                                }
                            }
                        }
                        let payload = shareplay_update_payload(
                            msg.channel_id.as_str(),
                            &self.playback[p].state,
                        );
                        let mut acq = acquisition_effects(
                            msg.channel_id.as_str(),
                            &self.playback[p].state,
                            &jobs,
                        );
                        let mut effects = self.broadcast(
                            &Broadcast { channel_id: msg.channel_id, payload },
                        );
                        let ghost e_b = effects@;
                        let ghost e_a = acq@;
                        effects.append(&mut acq);
                        proof {
                            let n1 = e_b.len() as int;
                            assert(effects@.subrange(0, n1) =~= e_b);
                            assert(effects@.subrange(n1, effects@.len() as int) =~= e_a);
                            assert(error_rel(
                                pb1[p as int].state,
                                mid,
                                msg.id@,
                                emsg_g,
                                ch,
                            ));
                            assert(self.rooms == old(self).rooms);
                            assert(no_room(old(self).rooms@, msg.channel_id@) ==> e_b.len()
                                == 0);
                            assert(forall|k: int|
                                room_at(old(self).rooms@, msg.channel_id@, k) ==> delivers_to(
                                    old(self).rooms@[k].members@,
                                    event_shareplay_update(
                                        msg.channel_id@,
                                        self.playback@[p as int].state,
                                    ),
                                    e_b,
                                ));
                            assert(broadcast_ok(
                                old(self).rooms@,
                                msg.channel_id@,
                                event_shareplay_update(
                                    msg.channel_id@,
                                    self.playback@[p as int].state,
                                ),
                                effects@.subrange(0, n1),
                            ));
                            assert(acq_effects_ok(
                                self.playback@[p as int].state,
                                msg.channel_id@,
                                jobs@,
                                effects@.subrange(n1, effects@.len() as int),
                            ));
                            assert(update_then_jobs_ok(
                                old(self).rooms@,
                                msg.channel_id@,
                                self.playback@[p as int].state,
                                jobs@,
                                effects@,
                            ));
                        }
                        effects
                    } else {
                        proof {
                            let pb2 = self.playback@;
                            assert forall|i: int, j: int| 0 <= i < j < pb2.len() implies (
                            #[trigger] pb2[i]).room_id@ != (#[trigger] pb2[j]).room_id@ by {
                                assert(pb1[i].room_id@ != pb1[j].room_id@);
                            }
                            assert forall|i: int| 0 <= i < pb2.len() implies (
                            #[trigger] pb2[i]).state.wf() by {
                                if i != p {
                                    assert(pb2[i] == pb1[i]);
                                }
                            }
                            assert(error_rel(
                                pb1[p as int].state,
                                mid,
                                msg.id@,
                                emsg_g,
                                ch,
                            ));
                            assert(self.playback@[p as int].state == mid);
                        }
                        Vec::new()
                    }
                }
            },
        }
    }

    /// Feed back a download result: on success with a stored file the
    /// item becomes Ready with its final title, media path, thumbnail and
    /// duration; otherwise it turns Error. Either way the freed slot is
    /// refilled. Stale results change nothing and emit nothing.
    #[verifier::loop_isolation(false)]
    pub fn handle_download_result(&mut self, msg: SharePlayDownloadResult) -> (effects: Vec<
        Effect,
    >)
        requires
            old(self).wf(),
        ensures
            final(self).wf(),
            final(self).users == old(self).users,
            final(self).rooms == old(self).rooms,
            final(self).voice == old(self).voice,
            no_pb(old(self).playback@, msg.channel_id@) ==> *final(self) == *old(self)
                && effects@.len() == 0,
            forall|p: int|
                pb_at(old(self).playback@, msg.channel_id@, p) ==> {
                    &&& final(self).playback@.len() == old(self).playback@.len()
                    &&& (forall|j: int|
                        0 <= j < old(self).playback@.len() && j != p ==> #[trigger] final(self).playback@[j] == old(self).playback@[j])
                    &&& final(self).playback@[p].room_id == old(self).playback@[p].room_id
                    &&& (msg.success && msg.file_path is Some ==> exists|
                        ch: bool,
                        mid: SharePlayState,
                    |
                        {
                            &&& #[trigger] success_rel(
                                old(self).playback@[p].state,
                                mid,
                                msg.id@,
                                msg.title,
                                msg.file_path->0,
                                msg.thumbnail_path,
                                msg.duration,
                                ch,
                            )
                            &&& (ch ==> exists|jobs: Seq<usize>|
                                #[trigger] schedule_rel(
                                    mid,
                                    final(self).playback@[p].state,
                                    jobs,
                                ) && update_then_jobs_ok(
                                    old(self).rooms@,
                                    msg.channel_id@,
                                    final(self).playback@[p].state,
                                    jobs,
                                    effects@,
                                ))
                            &&& (!ch ==> final(self).playback@[p].state == mid
                                && effects@.len() == 0)
                        })
                    &&& (!(msg.success && msg.file_path is Some) ==> exists|
                        emsg: String,
                        ch: bool,
                        mid: SharePlayState,
                    |
                        {
                            &&& (msg.error is Some ==> emsg == msg.error->0)
                            &&& (msg.error is None ==> emsg@ == "download failed"@)
                            &&& #[trigger] error_rel(
                                old(self).playback@[p].state,
                                mid,
                                msg.id@,
                                emsg,
                                ch,
                            )
                            &&& (ch ==> exists|jobs: Seq<usize>|
                                #[trigger] schedule_rel(
                                    mid,
                                    final(self).playback@[p].state,
                                    jobs,
                                ) && update_then_jobs_ok(
                                    old(self).rooms@,
                                    msg.channel_id@,
                                    final(self).playback@[p].state,
                                    jobs,
                                    effects@,
                                ))
                            &&& (!ch ==> final(self).playback@[p].state == mid
                                && effects@.len() == 0)
                        })
                },
    {
        match self.find_pb(msg.channel_id.as_str()) {
            None => Vec::new(),
            Some(p) => {
                proof {
                    assert forall|p2: int| pb_at(self.playback@, msg.channel_id@, p2) implies p2
                        == p as int by {
                        lemma_pb_at_unique(self.playback@, msg.channel_id@, p2, p as int);
                    }
                }
                let ghost pb1 = self.playback@;
                let ok_file = msg.success && msg.file_path.is_some();
                let ch: bool;
                let ghost mid: SharePlayState;
                if ok_file {
                    let file = match msg.file_path {
                        Some(f) => f,
                        None => String::new(),
                    };
                    let st = &mut self.playback[p].state;
                    ch = st.update_item_success(
                        msg.id.as_str(),
                        msg.title,
                        file,
                        msg.thumbnail_path,
                        msg.duration,
                    );
                    proof {
                        mid = *st;
                    }
                } else {
                    let emsg = match msg.error {
                        Some(e) => e,
                        None => "download failed".to_owned(),
                    };
                    let ghost emsg_g = emsg;
                    let st = &mut self.playback[p].state;
                    ch = st.update_item_error(msg.id.as_str(), emsg);
                    proof {
                        mid = *st;
                        assert(error_rel(pb1[p as int].state, mid, msg.id@, emsg_g, ch));
                    }
                }
                if ch {
                    let st = &mut self.playback[p].state;
                    let jobs = st.schedule();
                    let ghost fin = *st;
                    proof {
                        assert(schedule_rel(mid, fin, jobs@));
                        let pb2 = self.playback@;
                        assert(pb2[p as int].state == fin);
                        assert forall|i: int, j: int| 0 <= i < j < pb2.len() implies (
                        #[trigger] pb2[i]).room_id@ != (#[trigger] pb2[j]).room_id@ by {
                            assert(pb1[i].room_id@ != pb1[j].room_id@);
                        }
                        assert forall|i: int| 0 <= i < pb2.len() implies (
                        #[trigger] pb2[i]).state.wf() by {
                            if i != p {
                                assert(pb2[i] == pb1[i]);
                            }
                        }
                    }
                    let payload = shareplay_update_payload(
                        msg.channel_id.as_str(),
                        &self.playback[p].state,
                    );
                    let mut acq = acquisition_effects(
                        msg.channel_id.as_str(),
                        &self.playback[p].state,
                        &jobs,
                    );
                    let mut effects = self.broadcast(
                        &Broadcast { channel_id: msg.channel_id, payload },
                    );
                    let ghost e_b = effects@;
                    let ghost e_a = acq@;
                    effects.append(&mut acq);
                    proof {
                        let n1 = e_b.len() as int;
                        assert(effects@.subrange(0, n1) =~= e_b);
                        assert(effects@.subrange(n1, effects@.len() as int) =~= e_a);
                        assert(self.rooms == old(self).rooms);
                        assert(no_room(old(self).rooms@, msg.channel_id@) ==> e_b.len() == 0);
                        assert(forall|k: int|
                            room_at(old(self).rooms@, msg.channel_id@, k) ==> delivers_to(
                                old(self).rooms@[k].members@,
                                event_shareplay_update(
                                    msg.channel_id@,
                                    self.playback@[p as int].state,
                                ),
                                e_b,
                            ));
                        assert(acq_effects_ok(
                            self.playback@[p as int].state,
                            msg.channel_id@,
                            jobs@,
                            effects@.subrange(n1, effects@.len() as int),
                        ));
                        assert(update_then_jobs_ok(
                            old(self).rooms@,
                            msg.channel_id@,
                            self.playback@[p as int].state,
                            jobs@,
                            effects@,
                        ));
                    }
                    effects
                } else {
                    proof {
                        let pb2 = self.playback@;
                        assert forall|i: int, j: int| 0 <= i < j < pb2.len() implies (
                        #[trigger] pb2[i]).room_id@ != (#[trigger] pb2[j]).room_id@ by {
                            assert(pb1[i].room_id@ != pb1[j].room_id@);
                        }
                        assert forall|i: int| 0 <= i < pb2.len() implies (
                        #[trigger] pb2[i]).state.wf() by {
                            if i != p {
                                assert(pb2[i] == pb1[i]);
                            }
                        }
                        assert(self.playback@[p as int].state == mid);
                    }
                    Vec::new()
                }
            },
        }
    }

    /// Feed back a flattened playlist: the placeholder item is replaced
    /// in place by one Pending item per entry and the open slots are
    /// filled. An empty entry list, an unknown room or a stale
    /// placeholder id changes nothing and emits nothing.
    #[verifier::loop_isolation(false)]
    pub fn handle_playlist_result(&mut self, msg: SharePlayPlaylistResult) -> (effects: Vec<
        Effect,
    >)
        requires
            old(self).wf(),
        ensures
            final(self).wf(),
            final(self).users == old(self).users,
            final(self).rooms == old(self).rooms,
            final(self).voice == old(self).voice,
            no_pb(old(self).playback@, msg.channel_id@) ==> *final(self) == *old(self)
                && effects@.len() == 0,
            msg.entries@.len() == 0 ==> *final(self) == *old(self) && effects@.len() == 0,
            forall|p: int|
                pb_at(old(self).playback@, msg.channel_id@, p) && msg.entries@.len() >= 1 ==> {
                    &&& final(self).playback@.len() == old(self).playback@.len()
                    &&& (forall|j: int|
                        0 <= j < old(self).playback@.len() && j != p ==> #[trigger] final(self).playback@[j] == old(self).playback@[j])
                    &&& final(self).playback@[p].room_id == old(self).playback@[p].room_id
                    &&& (exists|ch: bool, mid: SharePlayState|
                        {
                            &&& #[trigger] playlist_rel(
                                old(self).playback@[p].state,
                                mid,
                                msg.placeholder_id@,
                                msg.entries@,
                                ch,
                            )
                            &&& (ch ==> exists|jobs: Seq<usize>|
                                #[trigger] schedule_rel(
                                    mid,
                                    final(self).playback@[p].state,
                                    jobs,
                                ) && update_then_jobs_ok(
                                    old(self).rooms@,
                                    msg.channel_id@,
                                    final(self).playback@[p].state,
                                    jobs,
                                    effects@,
                                ))
                            &&& (!ch ==> final(self).playback@[p].state == mid
                                && effects@.len() == 0)
                        })
                },
    {
        if msg.entries.len() == 0 {
            return Vec::new();
        }
        match self.find_pb(msg.channel_id.as_str()) {
            None => Vec::new(),
            Some(p) => {
                proof {
                    assert forall|p2: int| pb_at(self.playback@, msg.channel_id@, p2) implies p2
                        == p as int by {
                        lemma_pb_at_unique(self.playback@, msg.channel_id@, p2, p as int);
                    }
                }
                let ghost pb1 = self.playback@;
                let st = &mut self.playback[p].state;
                let ch = st.replace_with_playlist(msg.placeholder_id.as_str(), &msg.entries);
                let ghost mid = *st;
                if ch {
                    let jobs = st.schedule();
                    let ghost fin = *st;
                    proof {
                        assert(schedule_rel(mid, fin, jobs@));
                        let pb2 = self.playback@;
                        assert(pb2[p as int].state == fin);
                        assert forall|i: int, j: int| 0 <= i < j < pb2.len() implies (
                        #[trigger] pb2[i]).room_id@ != (#[trigger] pb2[j]).room_id@ by {
                            assert(pb1[i].room_id@ != pb1[j].room_id@);
                        }
                        assert forall|i: int| 0 <= i < pb2.len() implies (
                        #[trigger] pb2[i]).state.wf() by {
                            if i != p {
                                assert(pb2[i] == pb1[i]);
                            }
                        }
                    }
                    let payload = shareplay_update_payload(
                        msg.channel_id.as_str(),
                        &self.playback[p].state,
                    );
                    let mut acq = acquisition_effects(
                        msg.channel_id.as_str(),
                        &self.playback[p].state,
                        &jobs,
                    );
                    let mut effects = self.broadcast(
                        &Broadcast { channel_id: msg.channel_id, payload },
                    );
                    let ghost e_b = effects@;
                    let ghost e_a = acq@;
                    effects.append(&mut acq);
                    proof {
                        let n1 = e_b.len() as int;
                        assert(effects@.subrange(0, n1) =~= e_b);
                        assert(effects@.subrange(n1, effects@.len() as int) =~= e_a);
                        assert(playlist_rel(
                            pb1[p as int].state,
                            mid,
                            msg.placeholder_id@,
                            msg.entries@,
                            ch,
                        ));
                        assert(self.rooms == old(self).rooms);
                        assert(no_room(old(self).rooms@, msg.channel_id@) ==> e_b.len() == 0);
                        assert(forall|k: int|
                            room_at(old(self).rooms@, msg.channel_id@, k) ==> delivers_to(
                                old(self).rooms@[k].members@,
                                event_shareplay_update(
                                    msg.channel_id@,
                                    self.playback@[p as int].state,
                                ),
                                e_b,
                            ));
                        assert(acq_effects_ok(
                            self.playback@[p as int].state,
                            msg.channel_id@,
                            jobs@,
                            effects@.subrange(n1, effects@.len() as int),
                        ));
                        assert(update_then_jobs_ok(
                            old(self).rooms@,
                            msg.channel_id@,
                            self.playback@[p as int].state,
                            jobs@,
                            effects@,
                        ));
                    }
                    effects
                } else {
                    proof {
                        let pb2 = self.playback@;
                        assert forall|i: int, j: int| 0 <= i < j < pb2.len() implies (
                        #[trigger] pb2[i]).room_id@ != (#[trigger] pb2[j]).room_id@ by {
                            assert(pb1[i].room_id@ != pb1[j].room_id@);
                        }
                        assert forall|i: int| 0 <= i < pb2.len() implies (
                        #[trigger] pb2[i]).state.wf() by {
                            if i != p {
                                assert(pb2[i] == pb1[i]);
                            }
                        }
                        assert(playlist_rel(
                            pb1[p as int].state,
                            mid,
                            msg.placeholder_id@,
                            msg.entries@,
                            ch,
                        ));
                        assert(self.playback@[p as int].state == mid);
                    }
                    Vec::new()
                }
            },
        }
    }

    /// The id of the room's currently selected track, if any.
    pub fn current_track_id(&self, channel_id: &str) -> (r: Option<String>)
        requires
            self.wf(),
        ensures
            no_pb(self.playback@, channel_id@) ==> r is None,
            forall|p: int|
                pb_at(self.playback@, channel_id@, p) ==> r == (
                match self.playback@[p].state.current_index {
                    None => None::<String>,
                    Some(i) => Some(self.playback@[p].state.queue@[i as int].id),
                }),
    {
        match self.find_pb(channel_id) {
            None => None,
            Some(p) => {
                proof {
                    assert forall|p2: int| pb_at(self.playback@, channel_id@, p2) implies p2
                        == p as int by {
                        lemma_pb_at_unique(self.playback@, channel_id@, p2, p as int);
                    }
                }
                let st = &self.playback[p].state;
                match st.current_index {
                    None => None,
                    Some(i) => Some(st.queue[i].id.clone()),
                }
            },
        }
    }

    /// The stored media path of the queue item carrying `item_id`,
    /// searched across all rooms; None when no room holds the item or no
    /// file is stored yet.
    #[verifier::loop_isolation(false)]
    pub fn song_location(&self, item_id: &str) -> (r: Option<String>)
        ensures
            no_song(self.playback@, item_id@) ==> r is None,
            forall|i: int, j: int|
                song_at(self.playback@, item_id@, i, j) ==> r
                    == self.playback@[i].state.queue@[j].file_path,
    {
        let mut i: usize = 0;
        while i < self.playback.len()
            invariant
                i <= self.playback@.len(),
                forall|i2: int|
                    0 <= i2 < i ==> no_match((#[trigger] self.playback@[i2]).state.queue@, item_id@),
            decreases self.playback@.len() - i,
        {
            match self.playback[i].state.find_item(item_id) {
                Some(j) => {
                    proof {
                        assert(song_at(self.playback@, item_id@, i as int, j as int));
                        assert forall|i2: int, j2: int|
                            song_at(self.playback@, item_id@, i2, j2) implies i2 == i as int && j2
                            == j as int by {
                            if i2 < i {
                                assert(no_match(self.playback@[i2].state.queue@, item_id@));
                            } else if i2 > i {
                                assert(no_match(self.playback@[i as int].state.queue@, item_id@));
                            } else {
                                assert(first_match(
                                    self.playback@[i as int].state.queue@,
                                    item_id@,
                                    j2,
                                ));
                                if j2 < j {
                                    assert(self.playback@[i as int].state.queue@[j2].id@
                                        != item_id@);
                                } else if j2 > j {
                                    assert(self.playback@[i as int].state.queue@[j as int].id@
                                        != item_id@);
                                }
                            }
                        }
                    }
                    return match &self.playback[i].state.queue[j].file_path {
                        Some(f) => Some(f.clone()),
                        None => None,
                    };
                },
                None => {},
            }
            i = i + 1;
        }
        None
    }

    /// The stored thumbnail path of the queue item carrying `item_id`,
    /// searched across all rooms.
    #[verifier::loop_isolation(false)]
    pub fn thumbnail_location(&self, item_id: &str) -> (r: Option<String>)
        ensures
            no_song(self.playback@, item_id@) ==> r is None,
            forall|i: int, j: int|
                song_at(self.playback@, item_id@, i, j) ==> r
                    == self.playback@[i].state.queue@[j].thumbnail_path,
    {
        let mut i: usize = 0;
        while i < self.playback.len()
            invariant
                i <= self.playback@.len(),
                forall|i2: int|
                    0 <= i2 < i ==> no_match((#[trigger] self.playback@[i2]).state.queue@, item_id@),
            decreases self.playback@.len() - i,
        {
            match self.playback[i].state.find_item(item_id) {
                Some(j) => {
                    proof {
                        assert(song_at(self.playback@, item_id@, i as int, j as int));
                        assert forall|i2: int, j2: int|
                            song_at(self.playback@, item_id@, i2, j2) implies i2 == i as int && j2
                            == j as int by {
                            if i2 < i {
                                assert(no_match(self.playback@[i2].state.queue@, item_id@));
                            } else if i2 > i {
                                assert(no_match(self.playback@[i as int].state.queue@, item_id@));
                            } else {
                                assert(first_match(
                                    self.playback@[i as int].state.queue@,
                                    item_id@,
                                    j2,
                                ));
                                if j2 < j {
                                    assert(self.playback@[i as int].state.queue@[j2].id@
                                        != item_id@);
                                } else if j2 > j {
                                    assert(self.playback@[i as int].state.queue@[j as int].id@
                                        != item_id@);
                                }
                            }
                        }
                    }
                    return match &self.playback[i].state.queue[j].thumbnail_path {
                        Some(f) => Some(f.clone()),
                        None => None,
                    };
                },
                None => {},
            }
            i = i + 1;
        }
        None
    }
}

} // verus!
