//! Outbound wire events, JSON-shaped and `"type"`-discriminated.
//!
//! Every payload the hub emits is built here, character by character, and
//! each builder is proved to produce exactly the sequence its spec
//! function describes, including the escaping of embedded strings.

use vstd::prelude::*;

use crate::external::chars_vec;
use crate::external::string_from_chars;
use crate::playback::DownloadStatus;
use crate::playback::PlayStatus;
use crate::playback::QueueItem;
use crate::playback::RepeatMode;
use crate::playback::SharePlayState;

verus! {

/// The escape sequence a character contributes inside a JSON string.
pub open spec fn esc_char(c: char) -> Seq<char> {
    if c == '"' {
        seq!['\\', '"']
    } else if c == '\\' {
        seq!['\\', '\\']
    } else if c == '\n' {
        seq!['\\', 'n']
    } else if c == '\r' {
        seq!['\\', 'r']
    } else if c == '\t' {
        seq!['\\', 't']
    } else {
        seq![c]
    }
}

/// The body of a JSON string: every character escaped, in order.
pub open spec fn json_escaped(s: Seq<char>) -> Seq<char>
    decreases s.len(),
{
    if s.len() == 0 {
        Seq::empty()
    } else {
        json_escaped(s.drop_last()) + esc_char(s.last())
    }
}

/// The decimal digit character for `d`, which must lie in 0..10.
pub open spec fn dec_digit(d: int) -> char {
    if d == 0 {
        '0'
    } else if d == 1 {
        '1'
    } else if d == 2 {
        '2'
    } else if d == 3 {
        '3'
    } else if d == 4 {
        '4'
    } else if d == 5 {
        '5'
    } else if d == 6 {
        '6'
    } else if d == 7 {
        '7'
    } else if d == 8 {
        '8'
    } else {
        '9'
    }
}

/// The decimal digits of `n`, most significant first, no leading zeros.
pub open spec fn dec_str(n: int) -> Seq<char>
    decreases n,
{
    if n < 10 {
        seq![dec_digit(n)]
    } else {
        dec_str(n / 10).push(dec_digit(n % 10))
    }
}

/// Append the characters of `s` unchanged.
fn push_str_chars(out: &mut Vec<char>, s: &str)
    ensures
        final(out)@ == old(out)@ + s@,
{
    let mut cs = chars_vec(s);
    out.append(&mut cs);
}

/// Append the characters of `s`, escaped for a JSON string body.
fn push_escaped(out: &mut Vec<char>, s: &str)
    ensures
        final(out)@ == old(out)@ + json_escaped(s@),
{
    let cs = chars_vec(s);
    let ghost base = out@;
    let mut i: usize = 0;
    while i < cs.len()
        invariant
            i <= cs@.len(),
            cs@ == s@,
            out@ == base + json_escaped(s@.subrange(0, i as int)),
        decreases cs@.len() - i,
    {
        let c = cs[i];
        if c == '"' {
            out.push('\\');
            out.push('"');
        } else if c == '\\' {
            out.push('\\');
            out.push('\\');
        } else if c == '\n' {
            out.push('\\');
            out.push('n');
        } else if c == '\r' {
            out.push('\\');
            out.push('r');
        } else if c == '\t' {
            out.push('\\');
            out.push('t');
        } else {
            out.push(c);
        }
        proof {
            assert(s@.subrange(0, i + 1).drop_last() =~= s@.subrange(0, i as int));
            assert(s@.subrange(0, i + 1).last() == s@[i as int]);
            assert(out@ =~= base + json_escaped(s@.subrange(0, i + 1)));
        }
        i = i + 1;
    }
    proof {
        assert(s@.subrange(0, s@.len() as int) =~= s@);
    }
}

/// Append the decimal digits of `n`.
fn push_u64(out: &mut Vec<char>, n: u64)
    ensures
        final(out)@ == old(out)@ + dec_str(n as int),
    decreases n,
{
    if n >= 10 {
        push_u64(out, n / 10);
    }
    let d = (n % 10) as u8;
    let c: char = if d == 0 {
        '0'
    } else if d == 1 {
        '1'
    } else if d == 2 {
        '2'
    } else if d == 3 {
        '3'
    } else if d == 4 {
        '4'
    } else if d == 5 {
        '5'
    } else if d == 6 {
        '6'
    } else if d == 7 {
        '7'
    } else if d == 8 {
        '8'
    } else {
        '9'
    };
    out.push(c);
    proof {
        if n < 10 {
            assert(out@ =~= old(out)@ + dec_str(n as int));
        } else {
            assert(out@ =~= old(out)@ + dec_str(n as int));
        }
    }
}

/// A JSON string value: quoted and escaped.
pub open spec fn str_json(s: Seq<char>) -> Seq<char> {
    seq!['"'] + json_escaped(s) + seq!['"']
}

/// A JSON value for an optional string: `null` or the quoted string.
pub open spec fn opt_str_json(o: Option<String>) -> Seq<char> {
    match o {
        None => "null"@,
        Some(s) => str_json(s@),
    }
}

/// A JSON value for an optional number: `null` or its digits.
pub open spec fn opt_u64_json(o: Option<u64>) -> Seq<char> {
    match o {
        None => "null"@,
        Some(n) => dec_str(n as int),
    }
}

/// Append a JSON string value.
fn push_str_json(out: &mut Vec<char>, s: &str)
    ensures
        final(out)@ == old(out)@ + str_json(s@),
{
    out.push('"');
    push_escaped(out, s);
    out.push('"');
    proof {
        assert(out@ =~= old(out)@ + str_json(s@));
    }
}

/// Append a JSON value for an optional string.
fn push_opt_str_json(out: &mut Vec<char>, o: &Option<String>)
    ensures
        final(out)@ == old(out)@ + opt_str_json(*o),
{
    match o {
        None => push_str_chars(out, "null"),
        Some(s) => push_str_json(out, s.as_str()),
    }
}

/// Append a JSON value for an optional number.
fn push_opt_u64_json(out: &mut Vec<char>, o: &Option<u64>)
    ensures
        final(out)@ == old(out)@ + opt_u64_json(*o),
{
    match o {
        None => push_str_chars(out, "null"),
        Some(n) => push_u64(out, *n),
    }
}

/// The `voice_joined` event: a user's first session entered the room call.
pub open spec fn event_voice_joined(room: Seq<char>, user: Seq<char>) -> Seq<char> {
    "{\"type\":\"voice_joined\",\"channel_id\":"@ + str_json(room) + ",\"user_id\":"@ + str_json(
        user,
    ) + "}"@
}

/// The `voice_left` event: a user's last session left the room call.
pub open spec fn event_voice_left(room: Seq<char>, user: Seq<char>) -> Seq<char> {
    "{\"type\":\"voice_left\",\"channel_id\":"@ + str_json(room) + ",\"user_id\":"@ + str_json(
        user,
    ) + "}"@
}

/// The `shareplay_cleared` event: the room's playback state was torn down.
pub open spec fn event_shareplay_cleared(room: Seq<char>) -> Seq<char> {
    "{\"type\":\"shareplay_cleared\",\"channel_id\":"@ + str_json(room) + "}"@
}

/// The `connection_metadata` event: assigns the device-session id.
pub open spec fn event_connection_metadata(session: Seq<char>) -> Seq<char> {
    "{\"type\":\"connection_metadata\",\"session_id\":"@ + str_json(session) + "}"@
}

/// The `chat_message` event.
pub open spec fn event_chat_message(room: Seq<char>, user: Seq<char>, content: Seq<char>) -> Seq<
    char,
> {
    "{\"type\":\"chat_message\",\"channel_id\":"@ + str_json(room) + ",\"user_id\":"@ + str_json(
        user,
    ) + ",\"content\":"@ + str_json(content) + "}"@
}

/// The `typing` event.
pub open spec fn event_typing(room: Seq<char>, user: Seq<char>, started: bool) -> Seq<char> {
    "{\"type\":\"typing\",\"channel_id\":"@ + str_json(room) + ",\"user_id\":"@ + str_json(user)
        + ",\"started\":"@ + (if started {
        "true"@
    } else {
        "false"@
    }) + "}"@
}

/// The `webrtc_signal` event; `data` is relayed verbatim as JSON.
pub open spec fn event_webrtc_signal(room: Seq<char>, from: Seq<char>, data: Seq<char>) -> Seq<
    char,
> {
    "{\"type\":\"webrtc_signal\",\"channel_id\":"@ + str_json(room) + ",\"from_user_id\":"@
        + str_json(from) + ",\"data\":"@ + data + "}"@
}

/// The views of a list of strings, element by element.
pub open spec fn str_views(v: Seq<String>) -> Seq<Seq<char>> {
    v.map_values(|s: String| s@)
}

/// The list body of the `room_state` roster, comma separated.
pub open spec fn roster_json(users: Seq<Seq<char>>) -> Seq<char>
    decreases users.len(),
{
    if users.len() == 0 {
        Seq::empty()
    } else if users.len() == 1 {
        str_json(users.last())
    } else {
        roster_json(users.drop_last()) + ","@ + str_json(users.last())
    }
}

/// The `room_state` event: the current voice roster, sent on room join.
pub open spec fn event_room_state(users: Seq<Seq<char>>) -> Seq<char> {
    "{\"type\":\"room_state\",\"voice_users\":["@ + roster_json(users) + "]}"@
}

/// The JSON name of a download status.
pub open spec fn download_status_json(st: DownloadStatus) -> Seq<char> {
    match st {
        DownloadStatus::Pending => "\"pending\""@,
        DownloadStatus::Grabbing => "\"grabbing\""@,
        DownloadStatus::Downloading => "\"downloading\""@,
        DownloadStatus::Ready => "\"ready\""@,
        DownloadStatus::Error => "\"error\""@,
    }
}

/// The JSON name of a play status.
pub open spec fn play_status_json(st: PlayStatus) -> Seq<char> {
    match st {
        PlayStatus::Playing => "\"playing\""@,
        PlayStatus::Paused => "\"paused\""@,
    }
}

/// The JSON name of a repeat mode.
pub open spec fn repeat_mode_json(m: RepeatMode) -> Seq<char> {
    match m {
        RepeatMode::Off => "\"off\""@,
        RepeatMode::One => "\"one\""@,
        RepeatMode::All => "\"all\""@,
    }
}

/// One queue item as a JSON object.
pub open spec fn item_json(it: QueueItem) -> Seq<char> {
    "{\"id\":"@ + str_json(it.id@) + ",\"url\":"@ + str_json(it.url@) + ",\"title\":"@ + str_json(
        it.title@,
    ) + ",\"file_path\":"@ + opt_str_json(it.file_path) + ",\"thumbnail_path\":"@ + opt_str_json(
        it.thumbnail_path,
    ) + ",\"download_error\":"@ + opt_str_json(it.download_error) + ",\"duration_seconds\":"@
        + dec_str(it.duration_seconds as int) + ",\"download_status\":"@ + download_status_json(
        it.download_status,
    ) + "}"@
}

/// The queue as a JSON array body, comma separated.
pub open spec fn queue_json(q: Seq<QueueItem>) -> Seq<char>
    decreases q.len(),
{
    if q.len() == 0 {
        Seq::empty()
    } else if q.len() == 1 {
        item_json(q.last())
    } else {
        queue_json(q.drop_last()) + ","@ + item_json(q.last())
    }
}

/// The `shareplay_update` event: the room's whole playback state.
pub open spec fn event_shareplay_update(room: Seq<char>, s: SharePlayState) -> Seq<char> {
    "{\"type\":\"shareplay_update\",\"channel_id\":"@ + str_json(room) + ",\"queue\":["@
        + queue_json(s.queue@) + "],\"current_index\":"@ + (match s.current_index {
        None => "null"@,
        Some(i) => dec_str(i as int),
    }) + ",\"status\":"@ + play_status_json(s.status) + ",\"start_time_ms\":"@ + opt_u64_json(
        s.start_time,
    ) + ",\"position_ms\":"@ + dec_str(s.current_position_ms as int) + ",\"repeat_mode\":"@
        + repeat_mode_json(s.repeat_mode) + "}"@
}

/// Build the `voice_joined` payload.
pub fn voice_joined_payload(channel_id: &str, user_id: &str) -> (r: String)
    ensures
        r@ == event_voice_joined(channel_id@, user_id@),
{
    let mut out: Vec<char> = Vec::new();
    push_str_chars(&mut out, "{\"type\":\"voice_joined\",\"channel_id\":");
    push_str_json(&mut out, channel_id);
    push_str_chars(&mut out, ",\"user_id\":");
    push_str_json(&mut out, user_id);
    push_str_chars(&mut out, "}");
    proof {
        assert(out@ =~= event_voice_joined(channel_id@, user_id@));
    }
    string_from_chars(&out)
}

/// Build the `voice_left` payload.
pub fn voice_left_payload(channel_id: &str, user_id: &str) -> (r: String)
    ensures
        r@ == event_voice_left(channel_id@, user_id@),
{
    let mut out: Vec<char> = Vec::new();
    push_str_chars(&mut out, "{\"type\":\"voice_left\",\"channel_id\":");
    push_str_json(&mut out, channel_id);
    push_str_chars(&mut out, ",\"user_id\":");
    push_str_json(&mut out, user_id);
    push_str_chars(&mut out, "}");
    proof {
        assert(out@ =~= event_voice_left(channel_id@, user_id@));
    }
    string_from_chars(&out)
}

/// Build the `shareplay_cleared` payload.
pub fn shareplay_cleared_payload(channel_id: &str) -> (r: String)
    ensures
        r@ == event_shareplay_cleared(channel_id@),
{
    let mut out: Vec<char> = Vec::new();
    push_str_chars(&mut out, "{\"type\":\"shareplay_cleared\",\"channel_id\":");
    push_str_json(&mut out, channel_id);
    push_str_chars(&mut out, "}");
    proof {
        assert(out@ =~= event_shareplay_cleared(channel_id@));
    }
    string_from_chars(&out)
}

/// Build the `connection_metadata` payload.
pub fn connection_metadata_payload(session_id: &str) -> (r: String)
    ensures
        r@ == event_connection_metadata(session_id@),
{
    let mut out: Vec<char> = Vec::new();
    push_str_chars(&mut out, "{\"type\":\"connection_metadata\",\"session_id\":");
    push_str_json(&mut out, session_id);
    push_str_chars(&mut out, "}");
    proof {
        assert(out@ =~= event_connection_metadata(session_id@));
    }
    string_from_chars(&out)
}

/// Build the `chat_message` payload.
pub fn chat_message_payload(channel_id: &str, user_id: &str, content: &str) -> (r: String)
    ensures
        r@ == event_chat_message(channel_id@, user_id@, content@),
{
    let mut out: Vec<char> = Vec::new();
    push_str_chars(&mut out, "{\"type\":\"chat_message\",\"channel_id\":");
    push_str_json(&mut out, channel_id);
    push_str_chars(&mut out, ",\"user_id\":");
    push_str_json(&mut out, user_id);
    push_str_chars(&mut out, ",\"content\":");
    push_str_json(&mut out, content);
    push_str_chars(&mut out, "}");
    proof {
        assert(out@ =~= event_chat_message(channel_id@, user_id@, content@));
    }
    string_from_chars(&out)
}

/// Build the `typing` payload.
pub fn typing_payload(channel_id: &str, user_id: &str, started: bool) -> (r: String)
    ensures
        r@ == event_typing(channel_id@, user_id@, started),
{
    let mut out: Vec<char> = Vec::new();
    push_str_chars(&mut out, "{\"type\":\"typing\",\"channel_id\":");
    push_str_json(&mut out, channel_id);
    push_str_chars(&mut out, ",\"user_id\":");
    push_str_json(&mut out, user_id);
    push_str_chars(&mut out, ",\"started\":");
    if started {
        push_str_chars(&mut out, "true");
    } else {
        push_str_chars(&mut out, "false");
    }
    push_str_chars(&mut out, "}");
    proof {
        assert(out@ =~= event_typing(channel_id@, user_id@, started));
    }
    string_from_chars(&out)
}

/// Build the `webrtc_signal` payload; `data` must already be JSON and is
/// embedded verbatim.
pub fn webrtc_signal_payload(channel_id: &str, from_user_id: &str, data: &str) -> (r: String)
    ensures
        r@ == event_webrtc_signal(channel_id@, from_user_id@, data@),
{
    let mut out: Vec<char> = Vec::new();
    push_str_chars(&mut out, "{\"type\":\"webrtc_signal\",\"channel_id\":");
    push_str_json(&mut out, channel_id);
    push_str_chars(&mut out, ",\"from_user_id\":");
    push_str_json(&mut out, from_user_id);
    push_str_chars(&mut out, ",\"data\":");
    push_str_chars(&mut out, data);
    push_str_chars(&mut out, "}");
    proof {
        assert(out@ =~= event_webrtc_signal(channel_id@, from_user_id@, data@));
    }
    string_from_chars(&out)
}

/// Build the `room_state` payload from the voice roster.
pub fn room_state_payload(voice_users: &Vec<String>) -> (r: String)
    ensures
        r@ == event_room_state(str_views(voice_users@)),
{
    let mut out: Vec<char> = Vec::new();
    push_str_chars(&mut out, "{\"type\":\"room_state\",\"voice_users\":[");
    let ghost base = out@;
    let mut i: usize = 0;
    while i < voice_users.len()
        invariant
            i <= voice_users@.len(),
            out@ == base + roster_json(str_views(voice_users@.subrange(0, i as int))),
        decreases voice_users@.len() - i,
    {
        if i > 0 {
            push_str_chars(&mut out, ",");
        }
        push_str_json(&mut out, voice_users[i].as_str());
        proof {
            let pre = str_views(voice_users@.subrange(0, i + 1));
            assert(pre.drop_last() =~= str_views(voice_users@.subrange(0, i as int)));
            assert(pre.last() == voice_users@[i as int]@);
            assert(out@ =~= base + roster_json(pre));
        }
        i = i + 1;
    }
    proof {
        assert(str_views(voice_users@.subrange(0, voice_users@.len() as int)) =~= str_views(
            voice_users@,
        ));
    }
    push_str_chars(&mut out, "]}");
    proof {
        assert(out@ =~= event_room_state(str_views(voice_users@)));
    }
    string_from_chars(&out)
}

/// Append one queue item as JSON.
#[verifier::rlimit(60)]
fn push_item_json(out: &mut Vec<char>, it: &QueueItem)
    ensures
        final(out)@ == old(out)@ + item_json(*it),
{
    push_str_chars(out, "{\"id\":");
    push_str_json(out, it.id.as_str());
    push_str_chars(out, ",\"url\":");
    push_str_json(out, it.url.as_str());
    push_str_chars(out, ",\"title\":");
    push_str_json(out, it.title.as_str());
    push_str_chars(out, ",\"file_path\":");
    push_opt_str_json(out, &it.file_path);
    push_str_chars(out, ",\"thumbnail_path\":");
    push_opt_str_json(out, &it.thumbnail_path);
    push_str_chars(out, ",\"download_error\":");
    push_opt_str_json(out, &it.download_error);
    push_str_chars(out, ",\"duration_seconds\":");
    push_u64(out, it.duration_seconds);
    push_str_chars(out, ",\"download_status\":");
    match it.download_status {
        DownloadStatus::Pending => push_str_chars(out, "\"pending\""),
        DownloadStatus::Grabbing => push_str_chars(out, "\"grabbing\""),
        DownloadStatus::Downloading => push_str_chars(out, "\"downloading\""),
        DownloadStatus::Ready => push_str_chars(out, "\"ready\""),
        DownloadStatus::Error => push_str_chars(out, "\"error\""),
    }
    push_str_chars(out, "}");
    proof {
        assert(out@ =~= old(out)@ + item_json(*it));
    }
}

/// Build the `shareplay_update` payload for a room's playback state.
pub fn shareplay_update_payload(channel_id: &str, s: &SharePlayState) -> (r: String)
    ensures
        r@ == event_shareplay_update(channel_id@, *s),
{
    let mut out: Vec<char> = Vec::new();
    push_str_chars(&mut out, "{\"type\":\"shareplay_update\",\"channel_id\":");
    push_str_json(&mut out, channel_id);
    push_str_chars(&mut out, ",\"queue\":[");
    let ghost base = out@;
    let mut i: usize = 0;
    while i < s.queue.len()
        invariant
            i <= s.queue@.len(),
            out@ == base + queue_json(s.queue@.subrange(0, i as int)),
        decreases s.queue@.len() - i,
    {
        if i > 0 {
            push_str_chars(&mut out, ",");
        }
        push_item_json(&mut out, &s.queue[i]);
        proof {
            let pre = s.queue@.subrange(0, i + 1);
            assert(pre.drop_last() =~= s.queue@.subrange(0, i as int));
            assert(pre.last() == s.queue@[i as int]);
            assert(out@ =~= base + queue_json(pre));
        }
        i = i + 1;
    }
    proof {
        assert(s.queue@.subrange(0, s.queue@.len() as int) =~= s.queue@);
    }
    push_str_chars(&mut out, "],\"current_index\":");
    match s.current_index {
        None => push_str_chars(&mut out, "null"),
        Some(ix) => push_u64(&mut out, ix as u64),
    }
    push_str_chars(&mut out, ",\"status\":");
    match s.status {
        PlayStatus::Playing => push_str_chars(&mut out, "\"playing\""),
        PlayStatus::Paused => push_str_chars(&mut out, "\"paused\""),
    }
    push_str_chars(&mut out, ",\"start_time_ms\":");
    push_opt_u64_json(&mut out, &s.start_time);
    push_str_chars(&mut out, ",\"position_ms\":");
    push_u64(&mut out, s.current_position_ms);
    push_str_chars(&mut out, ",\"repeat_mode\":");
    match s.repeat_mode {
        RepeatMode::Off => push_str_chars(&mut out, "\"off\""),
        RepeatMode::One => push_str_chars(&mut out, "\"one\""),
        RepeatMode::All => push_str_chars(&mut out, "\"all\""),
    }
    push_str_chars(&mut out, "}");
    proof {
        assert(out@ =~= event_shareplay_update(channel_id@, *s));
    }
    string_from_chars(&out)
}

} // verus!
