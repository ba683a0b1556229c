//! Group playback engine: one state machine per room.
//!
//! The queue, the playback clock and the repeat policy live here. All time
//! is wall-clock milliseconds handed in by the caller, so every transition
//! is a pure function of the old state and the sampled clock and can be
//! verified for every clock value.

use vstd::prelude::*;

use crate::external::fresh_item_id;
use crate::external::str_eq;

verus! {

/// Repeat policy for the queue.
#[derive(Clone, Copy, Debug, PartialEq, Eq, Structural)]
pub enum RepeatMode {
    Off,
    One,
    All,
}

/// Acquisition lifecycle of one queue item.
#[derive(Clone, Copy, Debug, PartialEq, Eq, Structural)]
pub enum DownloadStatus {
    Pending,
    Grabbing,
    Downloading,
    Ready,
    Error,
}

/// Whether the room's playback clock is running.
#[derive(Clone, Copy, Debug, PartialEq, Eq, Structural)]
pub enum PlayStatus {
    Playing,
    Paused,
}

/// One entry in a room's playback queue.
#[derive(Clone, Debug)]
pub struct QueueItem {
    pub id: String,
    pub url: String,
    pub title: String,
    /// Local media path, set once the download finished.
    pub file_path: Option<String>,
    /// Local thumbnail path, best effort.
    pub thumbnail_path: Option<String>,
    /// Last acquisition error, set when the item fails.
    pub download_error: Option<String>,
    pub duration_seconds: u64,
    pub download_status: DownloadStatus,
}

/// Per-room playback state: queue, selection, clock and repeat policy.
#[derive(Clone, Debug)]
pub struct SharePlayState {
    pub queue: Vec<QueueItem>,
    pub current_index: Option<usize>,
    pub status: PlayStatus,
    /// Anchor wall-clock time in milliseconds, held exactly while Playing.
    pub start_time: Option<u64>,
    /// Accumulated position in milliseconds, snapshotted at pause and seek.
    pub current_position_ms: u64,
    pub repeat_mode: RepeatMode,
    /// Debounce timestamp of the last track advance, in milliseconds.
    pub last_auto_next: Option<u64>,
}

/// How many items of one room may be Grabbing or Downloading at once.
pub const MAX_ACTIVE_DOWNLOADS: usize = 2;

/// True of items that occupy a download slot.
pub open spec fn is_active(item: QueueItem) -> bool {
    item.download_status == DownloadStatus::Grabbing
        || item.download_status == DownloadStatus::Downloading
}

/// True of items still waiting for a download slot.
pub open spec fn is_pending(item: QueueItem) -> bool {
    item.download_status == DownloadStatus::Pending
}

/// Number of items of `q` that occupy a download slot.
pub open spec fn active_count(q: Seq<QueueItem>) -> int
    decreases q.len(),
{
    if q.len() == 0 {
        0
    } else {
        active_count(q.drop_last()) + (if is_active(q.last()) {
            1int
        } else {
            0int
        })
    }
}

/// Number of Pending items of `q` strictly before index `j`.
pub open spec fn pending_before(q: Seq<QueueItem>, j: int) -> int
    decreases j,
{
    if j <= 0 {
        0
    } else {
        pending_before(q, j - 1) + (if is_pending(q[j - 1]) {
            1int
        } else {
            0int
        })
    }
}

/// Download slots still open for `q`.
pub open spec fn free_slots(q: Seq<QueueItem>) -> int {
    if active_count(q) >= MAX_ACTIVE_DOWNLOADS {
        0
    } else {
        MAX_ACTIVE_DOWNLOADS - active_count(q)
    }
}

/// True of the indices the orchestrator selects: a Pending item with fewer
/// Pending items before it than there are open slots.
pub open spec fn selected_for_download(q: Seq<QueueItem>, j: int) -> bool {
    &&& 0 <= j < q.len()
    &&& is_pending(q[j])
    &&& pending_before(q, j) < free_slots(q)
}

pub proof fn lemma_active_count_nonneg(q: Seq<QueueItem>)
    ensures
        active_count(q) >= 0,
    decreases q.len(),
{
    if q.len() > 0 {
        lemma_active_count_nonneg(q.drop_last());
    }
}

pub proof fn lemma_active_count_push(q: Seq<QueueItem>, x: QueueItem)
    ensures
        active_count(q.push(x)) == active_count(q) + (if is_active(x) {
            1int
        } else {
            0int
        }),
{
    assert(q.push(x).drop_last() =~= q);
}

pub proof fn lemma_active_count_update(q: Seq<QueueItem>, j: int, x: QueueItem)
    requires
        0 <= j < q.len(),
    ensures
        active_count(q.update(j, x)) == active_count(q) - (if is_active(q[j]) {
            1int
        } else {
            0int
        }) + (if is_active(x) {
            1int
        } else {
            0int
        }),
    decreases q.len(),
{
    let u = q.update(j, x);
    if j == q.len() - 1 {
        assert(u.drop_last() =~= q.drop_last());
        assert(u.last() == x);
    } else {
        assert(u.drop_last() =~= q.drop_last().update(j, x));
        assert(u.last() == q.last());
        lemma_active_count_update(q.drop_last(), j, x);
    }
}

pub proof fn lemma_active_count_remove(q: Seq<QueueItem>, j: int)
    requires
        0 <= j < q.len(),
    ensures
        active_count(q.remove(j)) == active_count(q) - (if is_active(q[j]) {
            1int
        } else {
            0int
        }),
    decreases q.len(),
{
    let r = q.remove(j);
    if j == q.len() - 1 {
        assert(r =~= q.drop_last());
    } else {
        assert(r.drop_last() =~= q.drop_last().remove(j));
        assert(r.last() == q.last());
        lemma_active_count_remove(q.drop_last(), j);
    }
}

pub proof fn lemma_active_count_insert(q: Seq<QueueItem>, j: int, x: QueueItem)
    requires
        0 <= j <= q.len(),
    ensures
        active_count(q.insert(j, x)) == active_count(q) + (if is_active(x) {
            1int
        } else {
            0int
        }),
    decreases q.len(),
{
    let u = q.insert(j, x);
    if j == q.len() {
        assert(u =~= q.push(x));
        lemma_active_count_push(q, x);
    } else {
        assert(u.drop_last() =~= q.drop_last().insert(j, x));
        assert(u.last() == q.last());
        lemma_active_count_insert(q.drop_last(), j, x);
    }
}

/// Prefix counting unfolds one step at a time.
pub proof fn lemma_active_count_prefix_step(q: Seq<QueueItem>, k: int)
    requires
        0 <= k < q.len(),
    ensures
        active_count(q.subrange(0, k + 1)) == active_count(q.subrange(0, k)) + (if is_active(
            q[k],
        ) {
            1int
        } else {
            0int
        }),
{
    assert(q.subrange(0, k + 1).drop_last() =~= q.subrange(0, k));
    assert(q.subrange(0, k + 1).last() == q[k]);
}

/// Saturating addition on u64 values, the clock arithmetic of the engine.
pub open spec fn sat_add(a: u64, b: u64) -> u64 {
    if a + b > u64::MAX {
        u64::MAX
    } else {
        (a + b) as u64
    }
}

/// Saturating subtraction on u64 values: elapsed time under clock skew is 0.
pub open spec fn sat_sub(a: u64, b: u64) -> u64 {
    if a >= b {
        (a - b) as u64
    } else {
        0
    }
}

/// One resolved entry of a playlist reference.
#[derive(Clone, Debug)]
pub struct PlaylistEntry {
    pub url: String,
    pub title: String,
    pub duration_seconds: u64,
}

/// True when `k` is the first index of `q` whose item carries `id`.
pub open spec fn first_match(q: Seq<QueueItem>, id: Seq<char>, k: int) -> bool {
    &&& 0 <= k < q.len()
    &&& q[k].id@ == id
    &&& forall|j: int| 0 <= j < k ==> q[j].id@ != id
}

/// True when no item of `q` carries `id`.
pub open spec fn no_match(q: Seq<QueueItem>, id: Seq<char>) -> bool {
    forall|j: int| 0 <= j < q.len() ==> q[j].id@ != id
}

/// True when `it` is the fresh Pending item for playlist entry `e`.
pub open spec fn pending_item_for(it: QueueItem, e: PlaylistEntry) -> bool {
    &&& it.url == e.url
    &&& it.title == e.title
    &&& it.duration_seconds == e.duration_seconds
    &&& it.file_path is None
    &&& it.thumbnail_path is None
    &&& it.download_error is None
    &&& it.download_status == DownloadStatus::Pending
}

/// True when `a` and `b` agree on everything but the download status.
pub open spec fn same_but_status(a: QueueItem, b: QueueItem) -> bool {
    &&& a.id == b.id
    &&& a.url == b.url
    &&& a.title == b.title
    &&& a.file_path == b.file_path
    &&& a.thumbnail_path == b.thumbnail_path
    &&& a.download_error == b.download_error
    &&& a.duration_seconds == b.duration_seconds
}


/// How `add_item` changes the state: one fresh Pending item for `url`
/// under `id` at the back, head selected when nothing was.
pub open spec fn add_rel(pre: SharePlayState, post: SharePlayState, url: String, id: String) -> bool {
    &&& post.queue@.len() == pre.queue@.len() + 1
    &&& (forall|j: int| 0 <= j < pre.queue@.len() ==> #[trigger] post.queue@[j] == pre.queue@[j])
    &&& post.queue@.last().id == id
    &&& post.queue@.last().url == url
    &&& post.queue@.last().title@ == "Grabbing..."@
    &&& post.queue@.last().file_path is None
    &&& post.queue@.last().thumbnail_path is None
    &&& post.queue@.last().download_error is None
    &&& post.queue@.last().duration_seconds == 0
    &&& post.queue@.last().download_status == DownloadStatus::Pending
    &&& post.current_index == if pre.current_index is None {
        Some(0usize)
    } else {
        pre.current_index
    }
    &&& post.status == pre.status
    &&& post.start_time == pre.start_time
    &&& post.current_position_ms == pre.current_position_ms
    &&& post.repeat_mode == pre.repeat_mode
    &&& post.last_auto_next == pre.last_auto_next
}

/// How a metadata result changes the state: the first item carrying `id`,
/// when it holds a download slot, takes the resolved metadata and moves to
/// Downloading; anything stale is discarded unchanged.
pub open spec fn metadata_rel(
    pre: SharePlayState,
    post: SharePlayState,
    id: Seq<char>,
    title: String,
    duration: u64,
    thumbnail_path: Option<String>,
    changed: bool,
) -> bool {
    &&& (no_match(pre.queue@, id) ==> post == pre && !changed)
    &&& (forall|k: int|
        first_match(pre.queue@, id, k) && !is_active(pre.queue@[k]) ==> post == pre && !changed)
    &&& (forall|k: int|
        first_match(pre.queue@, id, k) && is_active(pre.queue@[k]) ==> {
            &&& changed
            &&& post.queue@.len() == pre.queue@.len()
            &&& (forall|j: int|
                0 <= j < pre.queue@.len() && j != k ==> #[trigger] post.queue@[j]
                    == pre.queue@[j])
            &&& post.queue@[k].id == pre.queue@[k].id
            &&& post.queue@[k].url == pre.queue@[k].url
            &&& post.queue@[k].title == title
            &&& post.queue@[k].duration_seconds == duration
            &&& post.queue@[k].thumbnail_path == thumbnail_path
            &&& post.queue@[k].file_path == pre.queue@[k].file_path
            &&& post.queue@[k].download_error == pre.queue@[k].download_error
            &&& post.queue@[k].download_status == DownloadStatus::Downloading
            &&& post.current_index == pre.current_index
            &&& post.status == pre.status
            &&& post.start_time == pre.start_time
            &&& post.current_position_ms == pre.current_position_ms
            &&& post.repeat_mode == pre.repeat_mode
            &&& post.last_auto_next == pre.last_auto_next
        })
}

/// How a finished download changes the state: the first item carrying
/// `id`, when it holds a download slot, becomes Ready with its final
/// title, media path, thumbnail and duration; stale results are discarded.
pub open spec fn success_rel(
    pre: SharePlayState,
    post: SharePlayState,
    id: Seq<char>,
    title: String,
    file_path: String,
    thumbnail_path: Option<String>,
    duration: u64,
    changed: bool,
) -> bool {
    &&& (no_match(pre.queue@, id) ==> post == pre && !changed)
    &&& (forall|k: int|
        first_match(pre.queue@, id, k) && !is_active(pre.queue@[k]) ==> post == pre && !changed)
    &&& (forall|k: int|
        first_match(pre.queue@, id, k) && is_active(pre.queue@[k]) ==> {
            &&& changed
            &&& post.queue@.len() == pre.queue@.len()
            &&& (forall|j: int|
                0 <= j < pre.queue@.len() && j != k ==> #[trigger] post.queue@[j]
                    == pre.queue@[j])
            &&& post.queue@[k].id == pre.queue@[k].id
            &&& post.queue@[k].url == pre.queue@[k].url
            &&& post.queue@[k].title == title
            &&& post.queue@[k].file_path == Some(file_path)
            &&& post.queue@[k].thumbnail_path == thumbnail_path
            &&& post.queue@[k].duration_seconds == duration
            &&& post.queue@[k].download_error == pre.queue@[k].download_error
            &&& post.queue@[k].download_status == DownloadStatus::Ready
            &&& post.current_index == pre.current_index
            &&& post.status == pre.status
            &&& post.start_time == pre.start_time
            &&& post.current_position_ms == pre.current_position_ms
            &&& post.repeat_mode == pre.repeat_mode
            &&& post.last_auto_next == pre.last_auto_next
        })
}

/// How a failed acquisition changes the state: the first item carrying
/// `id`, when it holds a download slot, becomes Error with the message
/// recorded; stale results are discarded.
pub open spec fn error_rel(
    pre: SharePlayState,
    post: SharePlayState,
    id: Seq<char>,
    error: String,
    changed: bool,
) -> bool {
    &&& (no_match(pre.queue@, id) ==> post == pre && !changed)
    &&& (forall|k: int|
        first_match(pre.queue@, id, k) && !is_active(pre.queue@[k]) ==> post == pre && !changed)
    &&& (forall|k: int|
        first_match(pre.queue@, id, k) && is_active(pre.queue@[k]) ==> {
            &&& changed
            &&& post.queue@.len() == pre.queue@.len()
            &&& (forall|j: int|
                0 <= j < pre.queue@.len() && j != k ==> #[trigger] post.queue@[j]
                    == pre.queue@[j])
            &&& post.queue@[k].id == pre.queue@[k].id
            &&& post.queue@[k].url == pre.queue@[k].url
            &&& post.queue@[k].title@ == "Error loading song"@
            &&& post.queue@[k].file_path == pre.queue@[k].file_path
            &&& post.queue@[k].thumbnail_path == pre.queue@[k].thumbnail_path
            &&& post.queue@[k].download_error == Some(error)
            &&& post.queue@[k].duration_seconds == pre.queue@[k].duration_seconds
            &&& post.queue@[k].download_status == DownloadStatus::Error
            &&& post.current_index == pre.current_index
            &&& post.status == pre.status
            &&& post.start_time == pre.start_time
            &&& post.current_position_ms == pre.current_position_ms
            &&& post.repeat_mode == pre.repeat_mode
            &&& post.last_auto_next == pre.last_auto_next
        })
}

/// How `remove_item` changes the state; `removed` is the item taken out.
pub open spec fn remove_rel(
    pre: SharePlayState,
    post: SharePlayState,
    index: usize,
    now: u64,
    removed: Option<QueueItem>,
) -> bool {
    &&& (index >= pre.queue@.len() ==> post == pre && removed is None)
    &&& (index < pre.queue@.len() ==> {
        &&& removed == Some(pre.queue@[index as int])
        &&& post.queue@ == pre.queue@.remove(index as int)
        &&& post.repeat_mode == pre.repeat_mode
        &&& post.last_auto_next == pre.last_auto_next
        &&& match pre.current_index {
            None => {
                &&& post.current_index is None
                &&& post.status == pre.status
                &&& post.start_time == pre.start_time
                &&& post.current_position_ms == pre.current_position_ms
            },
            Some(curr) => {
                if pre.queue@.len() == 1 {
                    &&& post.current_index is None
                    &&& post.status == PlayStatus::Paused
                    &&& post.start_time is None
                    &&& post.current_position_ms == pre.current_position_ms
                } else if index == curr {
                    &&& post.current_index == Some(
                        if curr + 1 == pre.queue@.len() {
                            (curr - 1) as usize
                        } else {
                            curr
                        },
                    )
                    &&& post.status == pre.status
                    &&& post.start_time == (if pre.status == PlayStatus::Playing {
                        Some(now)
                    } else {
                        pre.start_time
                    })
                    &&& post.current_position_ms == 0
                } else if index < curr {
                    &&& post.current_index == Some((curr - 1) as usize)
                    &&& post.status == pre.status
                    &&& post.start_time == pre.start_time
                    &&& post.current_position_ms == pre.current_position_ms
                } else {
                    &&& post.current_index == Some(curr)
                    &&& post.status == pre.status
                    &&& post.start_time == pre.start_time
                    &&& post.current_position_ms == pre.current_position_ms
                }
            },
        }
    })
}

/// How `schedule` changes the state: exactly the selected Pending items
/// turn Grabbing, and `jobs` lists their indices in increasing order.
pub open spec fn schedule_rel(pre: SharePlayState, post: SharePlayState, jobs: Seq<usize>) -> bool {
    &&& post.queue@.len() == pre.queue@.len()
    &&& (forall|j: int|
        0 <= j < pre.queue@.len() ==> same_but_status(pre.queue@[j], #[trigger] post.queue@[j]))
    &&& (forall|j: int|
        0 <= j < pre.queue@.len() ==> (#[trigger] post.queue@[j].download_status) == (
        if selected_for_download(pre.queue@, j) {
            DownloadStatus::Grabbing
        } else {
            pre.queue@[j].download_status
        }))
    &&& (forall|t: int|
        0 <= t < jobs.len() ==> selected_for_download(pre.queue@, #[trigger] jobs[t] as int))
    &&& (forall|t1: int, t2: int| 0 <= t1 < t2 < jobs.len() ==> jobs[t1] < jobs[t2])
    &&& (forall|j: int| selected_for_download(pre.queue@, j) ==> jobs.contains(j as usize))
    &&& active_count(post.queue@) == active_count(pre.queue@) + jobs.len()
    &&& post.current_index == pre.current_index
    &&& post.status == pre.status
    &&& post.start_time == pre.start_time
    &&& post.current_position_ms == pre.current_position_ms
    &&& post.repeat_mode == pre.repeat_mode
    &&& post.last_auto_next == pre.last_auto_next
}

/// How a playlist result changes the state: the placeholder is replaced in
/// place by one fresh Pending item per entry; an unknown placeholder id is
/// discarded unchanged.
pub open spec fn playlist_rel(
    pre: SharePlayState,
    post: SharePlayState,
    placeholder_id: Seq<char>,
    entries: Seq<PlaylistEntry>,
    changed: bool,
) -> bool {
    &&& (no_match(pre.queue@, placeholder_id) ==> post == pre && !changed)
    &&& (forall|k: int|
        first_match(pre.queue@, placeholder_id, k) ==> {
            &&& changed
            &&& post.queue@.len() == pre.queue@.len() + entries.len() - 1
            &&& (forall|j: int| 0 <= j < k ==> #[trigger] post.queue@[j] == pre.queue@[j])
            &&& (forall|t: int|
                0 <= t < entries.len() ==> pending_item_for(
                    #[trigger] post.queue@[k + t],
                    entries[t],
                ))
            &&& (forall|j: int|
                k < j < pre.queue@.len() ==> #[trigger] post.queue@[j + entries.len() - 1]
                    == pre.queue@[j])
            &&& post.current_index == (match pre.current_index {
                None => None::<usize>,
                Some(c) => if c <= k {
                    Some(c)
                } else {
                    Some((c + entries.len() - 1) as usize)
                },
            })
            &&& post.status == pre.status
            &&& post.start_time == pre.start_time
            &&& post.current_position_ms == pre.current_position_ms
            &&& post.repeat_mode == pre.repeat_mode
            &&& post.last_auto_next == pre.last_auto_next
        })
}

impl SharePlayState {
    /// Well-formedness: the selection is in bounds, the clock anchor is held
    /// exactly while Playing, and at most two items hold a download slot.
    pub open spec fn wf(self) -> bool {
        &&& match self.current_index {
            Some(i) => i < self.queue@.len(),
            None => true,
        }
        &&& (self.status == PlayStatus::Playing <==> self.start_time is Some)
        &&& active_count(self.queue@) <= MAX_ACTIVE_DOWNLOADS
    }

    /// Elapsed playing time at `now`, zero while paused.
    pub open spec fn elapsed_ms(self, now: u64) -> u64 {
        match self.start_time {
            Some(anchor) => sat_sub(now, anchor),
            None => 0,
        }
    }

    /// The position a listener hears at `now`: the accumulated position,
    /// advanced by the time since the anchor while Playing.
    pub open spec fn effective_position_spec(self, now: u64) -> u64 {
        if self.status == PlayStatus::Paused {
            self.current_position_ms
        } else {
            sat_add(self.current_position_ms, self.elapsed_ms(now))
        }
    }

    /// State after `play` at `now`.
    pub open spec fn play_spec(self, now: u64) -> SharePlayState {
        if self.status == PlayStatus::Playing {
            self
        } else {
            SharePlayState { status: PlayStatus::Playing, start_time: Some(now), ..self }
        }
    }

    /// State after `pause` at `now`.
    pub open spec fn pause_spec(self, now: u64) -> SharePlayState {
        if self.status == PlayStatus::Paused {
            self
        } else {
            SharePlayState {
                status: PlayStatus::Paused,
                start_time: None,
                current_position_ms: sat_add(self.current_position_ms, self.elapsed_ms(now)),
                ..self
            }
        }
    }

    /// State after `seek` to `position_ms` at `now`.
    pub open spec fn seek_spec(self, position_ms: u64, now: u64) -> SharePlayState {
        SharePlayState {
            current_position_ms: position_ms,
            start_time: if self.status == PlayStatus::Playing {
                Some(now)
            } else {
                self.start_time
            },
            ..self
        }
    }

    /// State after `set_track` to `index` at `now`: out-of-range is a no-op,
    /// otherwise the track is selected from position zero and plays.
    pub open spec fn set_track_spec(self, index: usize, now: u64) -> SharePlayState {
        if index < self.queue@.len() {
            SharePlayState {
                current_index: Some(index),
                current_position_ms: 0,
                status: PlayStatus::Playing,
                start_time: Some(now),
                ..self
            }
        } else {
            self
        }
    }

    /// State after `toggle_repeat`: Off, All, One, in a cycle.
    pub open spec fn toggle_repeat_spec(self) -> SharePlayState {
        SharePlayState {
            repeat_mode: match self.repeat_mode {
                RepeatMode::Off => RepeatMode::All,
                RepeatMode::All => RepeatMode::One,
                RepeatMode::One => RepeatMode::Off,
            },
            ..self
        }
    }

    /// An empty queue, nothing selected, paused at position zero.
    pub fn new() -> (s: SharePlayState)
        ensures
            s.wf(),
            s.queue@.len() == 0,
            s.current_index is None,
            s.status == PlayStatus::Paused,
            s.start_time is None,
            s.current_position_ms == 0,
            s.repeat_mode == RepeatMode::Off,
            s.last_auto_next is None,
    {
        let s = SharePlayState {
            queue: Vec::new(),
            current_index: None,
            status: PlayStatus::Paused,
            start_time: None,
            current_position_ms: 0,
            repeat_mode: RepeatMode::Off,
            last_auto_next: None,
        };
        proof {
            assert(active_count(s.queue@) == 0);
        }
        s
    }

    /// The position a listener hears at `now`, in milliseconds.
    pub fn effective_position(&self, now: u64) -> (r: u64)
        ensures
            r == self.effective_position_spec(now),
    {
        if matches!(self.status, PlayStatus::Paused) {
            self.current_position_ms
        } else {
            let elapsed: u64 = match self.start_time {
                Some(anchor) => if now >= anchor {
                    now - anchor
                } else {
                    0
                },
                None => 0,
            };
            if self.current_position_ms <= u64::MAX - elapsed {
                self.current_position_ms + elapsed
            } else {
                u64::MAX
            }
        }
    }

    /// Start the clock. A no-op while already Playing; reports whether the
    /// state changed, so that the caller broadcasts only real transitions.
    pub fn play(&mut self, now: u64) -> (changed: bool)
        ensures
            *final(self) == old(self).play_spec(now),
            changed == (old(self).status != PlayStatus::Playing),
            old(self).wf() ==> final(self).wf(),
    {
        if matches!(self.status, PlayStatus::Playing) {
            return false;
        }
        self.status = PlayStatus::Playing;
        self.start_time = Some(now);
        true
    }

    /// Stop the clock, folding the elapsed time into the accumulated
    /// position. A no-op while already Paused.
    pub fn pause(&mut self, now: u64) -> (changed: bool)
        ensures
            *final(self) == old(self).pause_spec(now),
            changed == (old(self).status != PlayStatus::Paused),
            old(self).wf() ==> final(self).wf(),
    {
        if matches!(self.status, PlayStatus::Paused) {
            return false;
        }
        let elapsed: u64 = match self.start_time {
            Some(anchor) => if now >= anchor {
                now - anchor
            } else {
                0
            },
            None => 0,
        };
        if self.current_position_ms <= u64::MAX - elapsed {
            self.current_position_ms = self.current_position_ms + elapsed;
        } else {
            self.current_position_ms = u64::MAX;
        }
        self.status = PlayStatus::Paused;
        self.start_time = None;
        true
    }

    /// Jump to `position_ms`; while Playing the anchor restarts at `now`.
    pub fn seek(&mut self, position_ms: u64, now: u64)
        ensures
            *final(self) == old(self).seek_spec(position_ms, now),
            old(self).wf() ==> final(self).wf(),
    {
        self.current_position_ms = position_ms;
        if matches!(self.status, PlayStatus::Playing) {
            self.start_time = Some(now);
        }
    }

    /// Select `index` and play it from the start; out-of-range is a no-op.
    pub fn set_track(&mut self, index: usize, now: u64) -> (changed: bool)
        ensures
            *final(self) == old(self).set_track_spec(index, now),
            changed == (index < old(self).queue@.len()),
            old(self).wf() ==> final(self).wf(),
    {
        if index < self.queue.len() {
            self.current_index = Some(index);
            self.current_position_ms = 0;
            self.status = PlayStatus::Playing;
            self.start_time = Some(now);
            true
        } else {
            false
        }
    }

    /// Advance the repeat policy: Off, All, One, back to Off.
    pub fn toggle_repeat(&mut self)
        ensures
            *final(self) == old(self).toggle_repeat_spec(),
            old(self).wf() ==> final(self).wf(),
    {
        self.repeat_mode = match self.repeat_mode {
            RepeatMode::Off => RepeatMode::All,
            RepeatMode::All => RepeatMode::One,
            RepeatMode::One => RepeatMode::Off,
        };
    }

    /// True when a track advance at `now` falls inside the one-second
    /// debounce window after the previous advance.
    pub open spec fn debounced(self, now: u64) -> bool {
        match self.last_auto_next {
            Some(last) => now < last || now - last < 1000,
            None => false,
        }
    }

    /// State after `next` at `now`. Inside the debounce window nothing
    /// happens; otherwise the advance is stamped and the repeat policy
    /// decides: One restarts the track, All wraps around, Off advances and
    /// stops at the end of the queue, resetting the selection to the start.
    pub open spec fn next_spec(self, now: u64) -> SharePlayState {
        if self.debounced(now) {
            self
        } else {
            let stamped = SharePlayState { last_auto_next: Some(now), ..self };
            if stamped.queue@.len() == 0 {
                stamped
            } else {
                match stamped.current_index {
                    None => stamped,
                    Some(curr) => match stamped.repeat_mode {
                        RepeatMode::One => SharePlayState {
                            current_position_ms: 0,
                            start_time: if stamped.status == PlayStatus::Playing {
                                Some(now)
                            } else {
                                stamped.start_time
                            },
                            ..stamped
                        },
                        RepeatMode::All => stamped.set_track_spec(
                            (((curr + 1) as int % stamped.queue@.len() as int)) as usize,
                            now,
                        ),
                        RepeatMode::Off => if curr + 1 < stamped.queue@.len() {
                            stamped.set_track_spec((curr + 1) as usize, now)
                        } else {
                            SharePlayState {
                                status: PlayStatus::Paused,
                                start_time: None,
                                current_position_ms: 0,
                                current_index: Some(0usize),
                                ..stamped
                            }
                        },
                    },
                }
            }
        }
    }

    /// True when `next` at `now` changes material state.
    pub open spec fn next_changes(self, now: u64) -> bool {
        &&& !self.debounced(now)
        &&& self.queue@.len() > 0
        &&& self.current_index is Some
    }

    /// Advance to the next track under the repeat policy, debounced to at
    /// most one advance per second.
    pub fn next(&mut self, now: u64) -> (changed: bool)
        requires
            old(self).wf(),
        ensures
            *final(self) == old(self).next_spec(now),
            changed == old(self).next_changes(now),
            final(self).wf(),
    {
        match self.last_auto_next {
            Some(last) => {
                if now < last || now - last < 1000 {
                    return false;
                }
            },
            None => {},
        }
        self.last_auto_next = Some(now);
        if self.queue.len() == 0 {
            return false;
        }
        match self.current_index {
            None => false,
            Some(curr) => {
                match self.repeat_mode {
                    RepeatMode::One => {
                        self.current_position_ms = 0;
                        if matches!(self.status, PlayStatus::Playing) {
                            self.start_time = Some(now);
                        }
                        true
                    },
                    RepeatMode::All => {
                        let len = self.queue.len();
                        let ni: usize = (curr + 1) % len;
                        self.set_track(ni, now);
                        true
                    },
                    RepeatMode::Off => {
                        if curr + 1 < self.queue.len() {
                            self.set_track(curr + 1, now);
                        } else {
                            self.status = PlayStatus::Paused;
                            self.start_time = None;
                            self.current_position_ms = 0;
                            self.current_index = Some(0usize);
                        }
                        true
                    },
                }
            },
        }
    }

    /// State after `prev` at `now`: more than three seconds in, the track
    /// restarts; otherwise the previous track is selected, wrapping under
    /// RepeatAll, and at the very start the track restarts.
    pub open spec fn prev_spec(self, now: u64) -> SharePlayState {
        if self.queue@.len() == 0 {
            self
        } else if self.effective_position_spec(now) > 3000 {
            self.seek_spec(0, now)
        } else {
            match self.current_index {
                None => self,
                Some(curr) => if curr > 0 {
                    self.set_track_spec((curr - 1) as usize, now)
                } else if self.repeat_mode == RepeatMode::All {
                    self.set_track_spec((self.queue@.len() - 1) as usize, now)
                } else {
                    self.seek_spec(0, now)
                },
            }
        }
    }

    /// True when `prev` at `now` changes material state.
    pub open spec fn prev_changes(self, now: u64) -> bool {
        &&& self.queue@.len() > 0
        &&& (self.effective_position_spec(now) > 3000 || self.current_index is Some)
    }

    /// Go back: restart the track when more than three seconds in, else
    /// select the previous track.
    pub fn prev(&mut self, now: u64) -> (changed: bool)
        requires
            old(self).wf(),
        ensures
            *final(self) == old(self).prev_spec(now),
            changed == old(self).prev_changes(now),
            final(self).wf(),
    {
        if self.queue.len() == 0 {
            return false;
        }
        let pos = self.effective_position(now);
        if pos > 3000 {
            self.seek(0, now);
            return true;
        }
        match self.current_index {
            None => false,
            Some(curr) => {
                if curr > 0 {
                    self.set_track(curr - 1, now);
                } else if matches!(self.repeat_mode, RepeatMode::All) {
                    self.set_track(self.queue.len() - 1, now);
                } else {
                    self.seek(0, now);
                }
                true
            },
        }
    }

    /// Append a Pending item for `url` under a fresh random id and return
    /// the id. When nothing was selected, the new head of the queue is.
    /// The acquisition itself is started separately by the orchestrator.
    pub fn add_item(&mut self, url: String) -> (id: String)
        requires
            old(self).wf(),
        ensures
            final(self).wf(),
            add_rel(*old(self), *final(self), url, id),
            id@.len() == 36,
    {
        let id = fresh_item_id();
        let item = QueueItem {
            id: id.clone(),
            url,
            title: "Grabbing...".to_owned(),
            file_path: None,
            thumbnail_path: None,
            download_error: None,
            duration_seconds: 0,
            download_status: DownloadStatus::Pending,
        };
        proof {
            lemma_active_count_push(self.queue@, item);
        }
        self.queue.push(item);
        if self.current_index.is_none() {
            self.current_index = Some(0usize);
        }
        id
    }

    /// Index of the first queue item carrying `id`, if any.
    pub fn find_item(&self, id: &str) -> (r: Option<usize>)
        ensures
            match r {
                Some(k) => first_match(self.queue@, id@, k as int),
                None => no_match(self.queue@, id@),
            },
    {
        let mut k: usize = 0;
        while k < self.queue.len()
            invariant
                k <= self.queue@.len(),
                forall|j: int| 0 <= j < k ==> self.queue@[j].id@ != id@,
            decreases self.queue@.len() - k,
        {
            if str_eq(self.queue[k].id.as_str(), id) {
                return Some(k);
            }
            k = k + 1;
        }
        None
    }

    /// Record resolved metadata on the first item carrying `id` and move it
    /// from Grabbing to Downloading. A stale result — an unknown id, or an
    /// item no longer holding a download slot — is silently discarded.
    pub fn update_item_metadata(
        &mut self,
        id: &str,
        title: String,
        duration: u64,
        thumbnail_path: Option<String>,
    ) -> (changed: bool)
        requires
            old(self).wf(),
        ensures
            final(self).wf(),
            metadata_rel(*old(self), *final(self), id@, title, duration, thumbnail_path, changed),
    {
        match self.find_item(id) {
            None => false,
            Some(k) => {
                let active = matches!(
                    self.queue[k].download_status,
                    DownloadStatus::Grabbing | DownloadStatus::Downloading
                );
                if !active {
                    return false;
                }
                let ghost q0 = self.queue@;
                let item = &mut self.queue[k];
                item.title = title;
                item.duration_seconds = duration;
                item.thumbnail_path = thumbnail_path;
                item.download_status = DownloadStatus::Downloading;
                proof {
                    assert(self.queue@ =~= q0.update(k as int, self.queue@[k as int]));
                    lemma_active_count_update(q0, k as int, self.queue@[k as int]);
                }
                true
            },
        }
    }

    /// Record a finished download on the first item carrying `id`: final
    /// title, media path, thumbnail and duration, status Ready. Stale
    /// results are silently discarded.
    pub fn update_item_success(
        &mut self,
        id: &str,
        title: String,
        file_path: String,
        thumbnail_path: Option<String>,
        duration: u64,
    ) -> (changed: bool)
        requires
            old(self).wf(),
        ensures
            final(self).wf(),
            success_rel(
                *old(self),
                *final(self),
                id@,
                title,
                file_path,
                thumbnail_path,
                duration,
                changed,
            ),
    {
        match self.find_item(id) {
            None => false,
            Some(k) => {
                let active = matches!(
                    self.queue[k].download_status,
                    DownloadStatus::Grabbing | DownloadStatus::Downloading
                );
                if !active {
                    return false;
                }
                let ghost q0 = self.queue@;
                let item = &mut self.queue[k];
                item.title = title;
                item.file_path = Some(file_path);
                item.thumbnail_path = thumbnail_path;
                item.duration_seconds = duration;
                item.download_status = DownloadStatus::Ready;
                proof {
                    assert(self.queue@ =~= q0.update(k as int, self.queue@[k as int]));
                    lemma_active_count_update(q0, k as int, self.queue@[k as int]);
                }
                true
            },
        }
    }

    /// Record a failed acquisition on the first item carrying `id`: error
    /// message stored, status Error, title replaced by the error placeholder.
    /// Stale results are silently discarded.
    pub fn update_item_error(&mut self, id: &str, error: String) -> (changed: bool)
        requires
            old(self).wf(),
        ensures
            final(self).wf(),
            error_rel(*old(self), *final(self), id@, error, changed),
    {
        match self.find_item(id) {
            None => false,
            Some(k) => {
                let active = matches!(
                    self.queue[k].download_status,
                    DownloadStatus::Grabbing | DownloadStatus::Downloading
                );
                if !active {
                    return false;
                }
                let ghost q0 = self.queue@;
                let item = &mut self.queue[k];
                item.title = "Error loading song".to_owned();
                item.download_error = Some(error);
                item.download_status = DownloadStatus::Error;
                proof {
                    assert(self.queue@ =~= q0.update(k as int, self.queue@[k as int]));
                    lemma_active_count_update(q0, k as int, self.queue@[k as int]);
                }
                true
            },
        }
    }

    /// Remove the item at `index` and hand it back so that the caller can
    /// delete its files. Out-of-range is a no-op. Removing the last item
    /// clears the selection and stops; removing the current track keeps the
    /// same numeric index, clamped to the new end, restarting from position
    /// zero; removing an earlier item shifts the selection down by one.
    pub fn remove_item(&mut self, index: usize, now: u64) -> (removed: Option<QueueItem>)
        requires
            old(self).wf(),
        ensures
            final(self).wf(),
            remove_rel(*old(self), *final(self), index, now, removed),
    {
        if index >= self.queue.len() {
            return None;
        }
        proof {
            lemma_active_count_remove(self.queue@, index as int);
            lemma_active_count_nonneg(self.queue@.remove(index as int));
        }
        let item = self.queue.remove(index);
        match self.current_index {
            None => {},
            Some(curr) => {
                if self.queue.len() == 0 {
                    self.current_index = None;
                    self.status = PlayStatus::Paused;
                    self.start_time = None;
                } else if index == curr {
                    if curr >= self.queue.len() {
                        self.current_index = Some(self.queue.len() - 1);
                    }
                    self.current_position_ms = 0;
                    if matches!(self.status, PlayStatus::Playing) {
                        self.start_time = Some(now);
                    }
                } else if index < curr {
                    self.current_index = Some(curr - 1);
                }
            },
        }
        Some(item)
    }

    /// Fill the open download slots: mark up to `free_slots` Pending items
    /// Grabbing, in queue order, and return their indices so that the
    /// caller dispatches one acquisition job per marked item. Keeps at most
    /// two items of the room in a download slot.
    pub fn schedule(&mut self) -> (jobs: Vec<usize>)
        requires
            old(self).wf(),
        ensures
            final(self).wf(),
            schedule_rel(*old(self), *final(self), jobs@),
    {
        let ghost q0 = self.queue@;
        let mut active: usize = 0;
        let mut k: usize = 0;
        while k < self.queue.len()
            invariant
                *self == *old(self),
                k <= self.queue@.len(),
                active <= k,
                active as int == active_count(self.queue@.subrange(0, k as int)),
            decreases self.queue@.len() - k,
        {
            proof {
                lemma_active_count_prefix_step(self.queue@, k as int);
            }
            if matches!(
                self.queue[k].download_status,
                DownloadStatus::Grabbing | DownloadStatus::Downloading
            ) {
                active = active + 1;
            }
            k = k + 1;
        }
        proof {
            assert(self.queue@.subrange(0, self.queue@.len() as int) =~= self.queue@);
        }
        let free: usize = if active >= MAX_ACTIVE_DOWNLOADS {
            0
        } else {
            MAX_ACTIVE_DOWNLOADS - active
        };
        let mut jobs: Vec<usize> = Vec::new();
        let mut pend: usize = 0;
        let mut j: usize = 0;
        while j < self.queue.len()
            invariant
                j <= q0.len(),
                pend <= j,
                self.queue@.len() == q0.len(),
                free as int == free_slots(q0),
                pend as int == pending_before(q0, j as int),
                jobs@.len() as int == (if pending_before(q0, j as int) < free as int {
                    pending_before(q0, j as int)
                } else {
                    free as int
                }),
                forall|t: int|
                    0 <= t < jobs@.len() ==> selected_for_download(q0, #[trigger] jobs@[t] as int)
                        && jobs@[t] < j,
                forall|t1: int, t2: int| 0 <= t1 < t2 < jobs@.len() ==> jobs@[t1] < jobs@[t2],
                forall|i: int| 0 <= i < j && selected_for_download(q0, i) ==> jobs@.contains(
                    i as usize,
                ),
                forall|i: int|
                    0 <= i < q0.len() ==> same_but_status(q0[i], #[trigger] self.queue@[i]),
                forall|i: int|
                    0 <= i < j ==> (#[trigger] self.queue@[i].download_status) == (
                    if selected_for_download(q0, i) {
                        DownloadStatus::Grabbing
                    } else {
                        q0[i].download_status
                    }),
                forall|i: int| j <= i < q0.len() ==> self.queue@[i] == q0[i],
                active_count(self.queue@) == active_count(q0) + jobs@.len(),
                self.current_index == old(self).current_index,
                self.status == old(self).status,
                self.start_time == old(self).start_time,
                self.current_position_ms == old(self).current_position_ms,
                self.repeat_mode == old(self).repeat_mode,
                self.last_auto_next == old(self).last_auto_next,
            decreases q0.len() - j,
        {
            let pending = matches!(self.queue[j].download_status, DownloadStatus::Pending);
            if pending && jobs.len() < free {
                let ghost qb = self.queue@;
                self.queue[j].download_status = DownloadStatus::Grabbing;
                proof {
                    assert(self.queue@ =~= qb.update(j as int, self.queue@[j as int]));
                    lemma_active_count_update(qb, j as int, self.queue@[j as int]);
                }
                let ghost jb = jobs@;
                jobs.push(j);
                proof {
                    assert forall|i: int| 0 <= i < j + 1 && selected_for_download(q0, i)
                        implies jobs@.contains(i as usize) by {
                        if i < j {
                            let t = choose|t: int|
                                0 <= t < jb.len() && jb[t] == i as usize;
                            assert(jobs@[t] == i as usize);
                        } else {
                            assert(jobs@[jb.len() as int] == i as usize);
                        }
                    }
                }
            } else {
                proof {
                    assert forall|i: int| 0 <= i < j + 1 && selected_for_download(q0, i)
                        implies jobs@.contains(i as usize) by {
                        assert(i < j);
                    }
                }
            }
            if pending {
                pend = pend + 1;
            }
            j = j + 1;
        }
        jobs
    }

    /// Replace the first item carrying `placeholder_id` with one fresh
    /// Pending item per playlist entry, in order, at the placeholder's
    /// position. A selection past the placeholder shifts with the queue.
    /// An unknown placeholder id is a silent no-op.
    pub fn replace_with_playlist(
        &mut self,
        placeholder_id: &str,
        entries: &Vec<PlaylistEntry>,
    ) -> (changed: bool)
        requires
            old(self).wf(),
            entries@.len() >= 1,
        ensures
            final(self).wf(),
            playlist_rel(*old(self), *final(self), placeholder_id@, entries@, changed),
    {
        match self.find_item(placeholder_id) {
            None => false,
            Some(k) => {
                let ghost q0 = self.queue@;
                proof {
                    lemma_active_count_remove(q0, k as int);
                    lemma_active_count_nonneg(q0.remove(k as int));
                }
                let _placeholder = self.queue.remove(k);
                let mut t: usize = 0;
                while t < entries.len()
                    invariant
                        t <= entries@.len(),
                        0 <= k < q0.len(),
                        self.queue@.len() == q0.len() - 1 + t,
                        forall|j: int| 0 <= j < k ==> #[trigger] self.queue@[j] == q0[j],
                        forall|i: int|
                            0 <= i < t ==> pending_item_for(
                                #[trigger] self.queue@[k + i],
                                entries@[i],
                            ),
                        forall|j: int|
                            k < j < q0.len() ==> #[trigger] self.queue@[j + t - 1] == q0[j],
                        active_count(self.queue@) <= active_count(q0),
                        0 <= active_count(self.queue@),
                        self.current_index == old(self).current_index,
                        self.status == old(self).status,
                        self.start_time == old(self).start_time,
                        self.current_position_ms == old(self).current_position_ms,
                        self.repeat_mode == old(self).repeat_mode,
                        self.last_auto_next == old(self).last_auto_next,
                    decreases entries@.len() - t,
                {
                    let e = &entries[t];
                    let id = fresh_item_id();
                    let item = QueueItem {
                        id,
                        url: e.url.clone(),
                        title: e.title.clone(),
                        file_path: None,
                        thumbnail_path: None,
                        download_error: None,
                        duration_seconds: e.duration_seconds,
                        download_status: DownloadStatus::Pending,
                    };
                    let cur_len = self.queue.len();
                    proof {
                        assert(k + t <= cur_len);
                        lemma_active_count_insert(self.queue@, (k + t) as int, item);
                    }
                    let ghost qb = self.queue@;
                    self.queue.insert(k + t, item);
                    proof {
                        assert forall|j: int| k < j < q0.len() implies #[trigger] self.queue@[j
                            + (t + 1) - 1] == q0[j] by {
                            assert(self.queue@[j + t] == qb[j + t - 1]);
                        }
                    }
                    t = t + 1;
                }
                match self.current_index {
                    Some(c) => {
                        if c > k {
                            let cur_len = self.queue.len();
                            proof {
                                assert(c + (entries@.len() - 1) <= cur_len);
                            }
                            self.current_index = Some(c + (entries.len() - 1));
                        }
                    },
                    None => {},
                }
                true
            },
        }
    }
}

/// In every well-formed playback state — and every method of
/// `SharePlayState` keeps well-formedness — at most two queue items hold a
/// download slot at once.
pub proof fn lemma_download_slot_cap(s: SharePlayState)
    requires
        s.wf(),
    ensures
        active_count(s.queue@) <= 2,
{
}

/// Sampling the effective position twice while Paused, with no transition
/// in between, yields identical values.
pub proof fn lemma_paused_position_stable(s: SharePlayState, t1: u64, t2: u64)
    requires
        s.status == PlayStatus::Paused,
    ensures
        s.effective_position_spec(t1) == s.effective_position_spec(t2),
{
}

/// `play` immediately followed by `pause`, with no time elapsed in
/// between, leaves the accumulated position unchanged.
pub proof fn lemma_play_pause_keeps_position(s: SharePlayState, now: u64)
    requires
        s.effective_position_spec(now) == s.current_position_ms,
    ensures
        s.play_spec(now).pause_spec(now).current_position_ms == s.current_position_ms,
{
}

/// A second `next` within the one-second debounce window is a no-op: two
/// quick advances move the track only once.
pub proof fn lemma_next_debounced_once(s: SharePlayState, t1: u64, t2: u64)
    requires
        !s.debounced(t1),
        t1 <= t2,
        t2 < t1 + 1000,
    ensures
        s.next_spec(t1).next_spec(t2) == s.next_spec(t1),
{
    let s1 = s.next_spec(t1);
    assert(s1.last_auto_next == Some(t1));
}

} // verus!
