//! Decisions of the playback monitor: which devices it watches, when a track
//! has ended, how a queue moves on when one has, and what it reports.
//!
//! The monitor itself polls devices over the network every few seconds; each
//! decision it takes between two polls is a function here.

use vstd::prelude::*;

use crate::models::QueueTrackResponse;
use crate::queue::{advance_step, PlayQueue};
use crate::text::{decimal, push_char, push_str, str_eq, zero_padded, zero_padded_string};

verus! {

broadcast use vstd::seq_lib::group_seq_properties;

/// The shuffle and repeat modes of the application for a UPnP play mode.
pub open spec fn play_mode_spec(mode: Seq<char>) -> (Seq<char>, Seq<char>) {
    if mode == "SHUFFLE"@ || mode == "SHUFFLE_NOREPEAT"@ || mode == "RANDOM"@ {
        ("on"@, "off"@)
    } else if mode == "REPEAT_ONE"@ {
        ("off"@, "track"@)
    } else if mode == "REPEAT_ALL"@ {
        ("off"@, "all"@)
    } else if mode == "SHUFFLE_REPEAT_ALL"@ {
        ("on"@, "all"@)
    } else {
        ("off"@, "off"@)
    }
}

/// Map a UPnP `PlayMode` to the application's shuffle and repeat modes;
/// `NORMAL` and anything unknown mean neither.
pub fn parse_upnp_play_mode(mode: &str) -> (r: (&'static str, &'static str))
    ensures
        (r.0@, r.1@) == play_mode_spec(mode@),
{
    if str_eq(mode, "SHUFFLE") || str_eq(mode, "SHUFFLE_NOREPEAT") || str_eq(mode, "RANDOM") {
        ("on", "off")
    } else if str_eq(mode, "REPEAT_ONE") {
        ("off", "track")
    } else if str_eq(mode, "REPEAT_ALL") {
        ("off", "all")
    } else if str_eq(mode, "SHUFFLE_REPEAT_ALL") {
        ("on", "all")
    } else {
        ("off", "off")
    }
}

/// `h:mm:ss` with each part at least two digits wide, for a number of whole
/// seconds.
pub open spec fn hms_spec(total: nat) -> Seq<char> {
    zero_padded(total / 3600, 2) + seq![':'] + zero_padded((total % 3600) / 60, 2) + seq![':']
        + zero_padded(total % 60, 2)
}

/// Format whole seconds as `HH:MM:SS`.
pub fn format_hms(total: u64) -> (r: String)
    ensures
        r@ == hms_spec(total as nat),
{
    let mut s = zero_padded_string(total / 3600, 2);
    push_char(&mut s, ':');
    let m = zero_padded_string((total % 3600) / 60, 2);
    push_str(&mut s, m.as_str());
    push_char(&mut s, ':');
    let sec = zero_padded_string(total % 60, 2);
    push_str(&mut s, sec.as_str());
    s
}

/// Whether the transport moved from playing to stopped: the previous state
/// was `PLAYING` or `TRANSITIONING` and the current one is `STOPPED` or
/// `NO_MEDIA_PRESENT`.
pub open spec fn track_end_spec(prev: Seq<char>, current: Seq<char>) -> bool {
    (prev == "PLAYING"@ || prev == "TRANSITIONING"@) && (current == "STOPPED"@ || current
        == "NO_MEDIA_PRESENT"@)
}

/// A track ends exactly when the transport leaves a playing state for a
/// stopped one: each of `PLAYING` and `TRANSITIONING` followed by each of
/// `STOPPED` and `NO_MEDIA_PRESENT` is an end, and the two sides are
/// independent: when `prev` ends into one stopped state it ends into any
/// other state that some playing state ends into.
pub proof fn law_track_end(prev: Seq<char>, current: Seq<char>, prev2: Seq<char>, current2: Seq<char>)
    ensures
        (prev == "PLAYING"@ || prev == "TRANSITIONING"@) && (current == "STOPPED"@ || current
            == "NO_MEDIA_PRESENT"@) ==> track_end_spec(prev, current),
        track_end_spec(prev, current) ==> (prev == "PLAYING"@ || prev == "TRANSITIONING"@) && (current
            == "STOPPED"@ || current == "NO_MEDIA_PRESENT"@),
        track_end_spec(prev, current) && track_end_spec(prev2, current2) ==> track_end_spec(prev, current2)
            && track_end_spec(prev2, current),
{
}

/// Whether a track has just ended on a device.
pub fn is_track_end(prev: &str, current: &str) -> (r: bool)
    ensures
        r == track_end_spec(prev@, current@),
{
    (str_eq(prev, "PLAYING") || str_eq(prev, "TRANSITIONING")) && (str_eq(current, "STOPPED")
        || str_eq(current, "NO_MEDIA_PRESENT"))
}

/// Whether the monitor watches a device: it must have an AVTransport
/// service, and a device in a group is watched only if it leads the group.
pub fn should_monitor(has_av_transport: bool, in_group: bool, is_master: bool) -> (r: bool)
    ensures
        r == (has_av_transport && (!in_group || is_master)),
{
    has_av_transport && !(in_group && !is_master)
}

/// The media URL of a track on this server: `"{base}/media/{id}"`.
pub open spec fn media_url_spec(base_url: Seq<char>, id: Seq<char>) -> Seq<char> {
    base_url + "/media/"@ + id
}

/// Build the media URL of a track on this server.
pub fn media_url(base_url: &str, id: &str) -> (r: String)
    ensures
        r@ == media_url_spec(base_url@, id@),
{
    let mut s = base_url.to_owned();
    push_str(&mut s, "/media/");
    push_str(&mut s, id);
    s
}

/// The URL a queued track is played from: its own stream URL when it has
/// one, else its media URL on this server.
pub open spec fn queue_url_spec(track: QueueTrackResponse, base_url: Seq<char>) -> Seq<char> {
    match track.stream_url {
        Some(u) => u@,
        None => media_url_spec(base_url, track.id@),
    }
}

/// The URL to play a queued track from.
pub fn queue_track_url(track: &QueueTrackResponse, base_url: &str) -> (r: String)
    ensures
        r@ == queue_url_spec(*track, base_url@),
{
    match &track.stream_url {
        Some(u) => u.clone(),
        None => media_url(base_url, track.id.as_str()),
    }
}

/// What the monitor does for a device that plays from a server-side queue.
#[derive(Debug)]
pub enum QueueStep {
    /// The queue is empty: nothing to do, and the transport state is not
    /// recorded.
    Skip,
    /// No track ended: nothing to play.
    Idle,
    /// A track ended and the queue moved on: play this track from this URL.
    Play { url: String, track: QueueTrackResponse },
    /// A track ended and the queue has nothing more to play.
    Ended,
}

/// The transport state last seen on each device, by device id.
pub type LastStates = vstd::hash_map::StringHashMap<String>;

/// The transport state last seen on a device, empty when none was.
pub open spec fn last_state_of(last: Map<Seq<char>, String>, id: Seq<char>) -> Seq<char> {
    if last.contains_key(id) {
        last[id]@
    } else {
        Seq::empty()
    }
}

/// One monitor step for a device that plays from a queue. With an empty
/// queue nothing happens. Otherwise, when a track has ended since the last
/// poll the queue advances and the next track is played, or the queue is
/// reported as ended; and the current transport state is recorded.
pub fn queue_monitor_step(
    queue: &mut PlayQueue,
    last_states: &mut vstd::hash_map::StringHashMap<String>,
    device_id: &str,
    transport_state: &str,
    base_url: &str,
) -> (r: QueueStep)
    requires
        old(queue)@.tracks.len() == 0 || old(queue)@.repeat_mode == "track"@ || old(queue)@.position
            < usize::MAX,
    ensures
        old(queue)@.tracks.len() == 0 ==> {
            &&& r is Skip
            &&& final(queue)@ == old(queue)@
            &&& final(last_states)@ == old(last_states)@
        },
        old(queue)@.tracks.len() > 0 ==> {
            let prev = last_state_of(old(last_states)@, device_id@);
            let step = advance_step(
                old(queue)@.position,
                old(queue)@.tracks.len(),
                old(queue)@.repeat_mode,
            );
            &&& final(last_states)@ == old(last_states)@.insert(
                device_id@,
                final(last_states)@[device_id@],
            )
            &&& final(last_states)@[device_id@]@ == transport_state@
            &&& if track_end_spec(prev, transport_state@) {
                &&& final(queue)@.tracks == old(queue)@.tracks
                &&& final(queue)@.shuffle_mode == old(queue)@.shuffle_mode
                &&& final(queue)@.repeat_mode == old(queue)@.repeat_mode
                &&& final(queue)@.shuffle_order == old(queue)@.shuffle_order
                &&& final(queue)@.position == step.0
                &&& if step.1 {
                    let t = old(queue)@.tracks[step.0 as int];
                    r == QueueStep::Play { url: r->url, track: t } && r->url@ == queue_url_spec(
                        t,
                        base_url@,
                    )
                } else {
                    r is Ended
                }
            } else {
                &&& r is Idle
                &&& final(queue)@ == old(queue)@
            }
        },
{
    if queue.tracks().len() == 0 {
        return QueueStep::Skip;
    }
    let prev: String = match last_states.get(device_id) {
        Some(s) => s.clone(),
        None => String::new(),
    };
    let ended = is_track_end(prev.as_str(), transport_state);
    let r = if ended {
        let next = queue.advance();
        match next {
            Some(t) => {
                let track = t.clone();
                let url = queue_track_url(&track, base_url);
                QueueStep::Play { url, track }
            },
            None => QueueStep::Ended,
        }
    } else {
        QueueStep::Idle
    };
    last_states.insert(device_id.to_owned(), transport_state.to_owned());
    r
}

/// What the monitor broadcasts of a queue: the playing track, the position,
/// the length and the two modes.
#[derive(Debug)]
pub struct QueueSnapshot {
    pub current_track: Option<QueueTrackResponse>,
    pub position: usize,
    pub queue_length: usize,
    pub shuffle_mode: String,
    pub repeat_mode: String,
}

/// Take the snapshot of a queue that a playback-state broadcast reports.
pub fn queue_snapshot(queue: &PlayQueue) -> (r: QueueSnapshot)
    ensures
        r.current_track == crate::queue::track_at(queue@.tracks, queue@.position),
        r.position as nat == queue@.position,
        r.queue_length as nat == queue@.tracks.len(),
        r.shuffle_mode@ == queue@.shuffle_mode,
        r.repeat_mode@ == queue@.repeat_mode,
{
    let current_track = match queue.current() {
        Some(t) => Some(t.clone()),
        None => None,
    };
    QueueSnapshot {
        current_track,
        position: queue.position(),
        queue_length: queue.tracks().len(),
        shuffle_mode: queue.shuffle_mode().to_owned(),
        repeat_mode: queue.repeat_mode().to_owned(),
    }
}

/// Apply the play mode a device reports to its queue, as the monitor does
/// on the first poll of a device that has no session.
pub fn sync_play_mode(queue: &mut PlayQueue, play_mode: &str)
    ensures
        final(queue)@.tracks == old(queue)@.tracks,
        final(queue)@.position == old(queue)@.position,
        final(queue)@.shuffle_mode == play_mode_spec(play_mode@).0,
        final(queue)@.repeat_mode == play_mode_spec(play_mode@).1,
{
    let (shuffle, repeat) = parse_upnp_play_mode(play_mode);
    queue.set_shuffle_mode(shuffle.to_owned());
    queue.set_repeat_mode(repeat.to_owned());
}

/// Whether `id` is listed.
fn listed(ids: &Vec<String>, id: &str) -> (r: bool)
    ensures
        r == exists|i: int| 0 <= i < ids@.len() && #[trigger] ids@[i]@ == id@,
{
    let mut i: usize = 0;
    while i < ids.len()
        invariant
            i <= ids@.len(),
            forall|j: int| 0 <= j < i ==> #[trigger] ids@[j]@ != id@,
        decreases ids.len() - i,
    {
        if str_eq(ids[i].as_str(), id) {
            return true;
        }
        i = i + 1;
    }
    false
}

/// Whether a string's view occurs among a list of strings.
pub open spec fn has_id(ids: Seq<String>, id: Seq<char>) -> bool {
    exists|i: int| 0 <= i < ids.len() && #[trigger] ids[i]@ == id
}

/// Note that a device has had its first poll. Returns whether this is its
/// first poll, that is whether it was not noted yet.
pub fn mark_initialized(initialized: &mut Vec<String>, id: &str) -> (first: bool)
    ensures
        first == !has_id(old(initialized)@, id@),
        first ==> final(initialized)@ == old(initialized)@.push(final(initialized)@.last()),
        first ==> final(initialized)@.last()@ == id@,
        !first ==> final(initialized)@ == old(initialized)@,
        has_id(final(initialized)@, id@),
{
    if listed(initialized, id) {
        false
    } else {
        initialized.push(id.to_owned());
        let ghost n = initialized@.len() - 1;
        assert(initialized@[n]@ == id@);
        true
    }
}

/// Forget the devices that are gone, so that one that comes back has its
/// settings synced again: keep, in order, the noted ids that are current.
pub fn prune_initialized(initialized: &mut Vec<String>, current: &Vec<String>)
    ensures
        final(initialized)@ == old(initialized)@.filter(|s: String| has_id(current@, s@)),
{
    let ghost before = initialized@;
    let mut kept: Vec<String> = Vec::new();
    let mut i: usize = 0;
    while i < initialized.len()
        invariant
            initialized@ == before,
            i <= before.len(),
            kept@ == before.take(i as int).filter(|s: String| has_id(current@, s@)),
        decreases initialized.len() - i,
    {
        assert(before.take(i + 1).drop_last() =~= before.take(i as int));
        proof {
            reveal(Seq::filter);
        }
        if listed(current, initialized[i].as_str()) {
            kept.push(initialized[i].clone());
        }
        i = i + 1;
    }
    assert(before.take(before.len() as int) =~= before);
    *initialized = kept;
}

/// A device as the monitor sees it at a tick.
#[derive(Debug)]
pub struct MonitorCandidate {
    pub id: String,
    pub av_transport: bool,
    pub in_group: bool,
    pub is_master: bool,
}

/// Whether the monitor watches a device (see `should_monitor`).
pub open spec fn is_monitored(d: MonitorCandidate) -> bool {
    d.av_transport && (!d.in_group || d.is_master)
}

/// What the monitor does with a device at a tick.
#[derive(Debug, PartialEq, Eq)]
pub enum TickPlan {
    /// Not watched: no command is sent to it.
    Skip,
    /// Query its transport and position and report its playback state once;
    /// when `first`, read its transport settings first.
    Poll { first: bool },
}

/// Whether the list holds a device with this id.
pub open spec fn listed_in(devs: Seq<MonitorCandidate>, id: Seq<char>) -> bool {
    exists|i: int| 0 <= i < devs.len() && #[trigger] devs[i].id@ == id
}

/// Whether a watched device with this id comes before position `i`.
pub open spec fn watched_before(devs: Seq<MonitorCandidate>, i: int, id: Seq<char>) -> bool {
    exists|j: int| 0 <= j < i && is_monitored(devs[j]) && #[trigger] devs[j].id@ == id
}

/// What one tick of the monitor decides, from the ids noted before it, the
/// device list, the plans and the ids noted after it: each watched device
/// is polled, the others are left alone; a device's settings are read when
/// it was not noted while present; the noted ids become those still
/// present and those polled.
pub open spec fn tick_ok(
    before: Seq<String>,
    devs: Seq<MonitorCandidate>,
    plans: Seq<TickPlan>,
    after: Seq<String>,
) -> bool {
    &&& plans.len() == devs.len()
    &&& forall|i: int|
        0 <= i < devs.len() ==> #[trigger] plans[i] == (if is_monitored(devs[i]) {
            TickPlan::Poll {
                first: !has_id(before, devs[i].id@) && !watched_before(devs, i, devs[i].id@),
            }
        } else {
            TickPlan::Skip
        })
    &&& forall|x: Seq<char>|
        #[trigger] has_id(after, x) <==> (has_id(before, x) && listed_in(devs, x)) || watched_before(
            devs,
            devs.len() as int,
            x,
        )
}

/// A string pushed onto a list is in it, beside what was there.
proof fn lemma_has_id_push(s: Seq<String>, x: String, y: Seq<char>)
    ensures
        has_id(s.push(x), y) <==> has_id(s, y) || x@ == y,
{
    let t = s.push(x);
    if has_id(s, y) {
        let i = choose|i: int| 0 <= i < s.len() && #[trigger] s[i]@ == y;
        assert(t[i]@ == y);
    }
    if x@ == y {
        assert(t[s.len() as int]@ == y);
    }
    if has_id(t, y) {
        let i = choose|i: int| 0 <= i < t.len() && #[trigger] t[i]@ == y;
        if i < s.len() {
            assert(s[i]@ == y);
        }
    }
}

/// Whether the device list holds this id.
fn listed_device(devs: &Vec<MonitorCandidate>, id: &str) -> (r: bool)
    ensures
        r == listed_in(devs@, id@),
{
    let mut i: usize = 0;
    while i < devs.len()
        invariant
            i <= devs@.len(),
            forall|j: int| 0 <= j < i ==> #[trigger] devs@[j].id@ != id@,
        decreases devs.len() - i,
    {
        if str_eq(devs[i].id.as_str(), id) {
            return true;
        }
        i = i + 1;
    }
    false
}

/// One tick of the playback monitor: forget the noted devices that are
/// gone, then plan each device of the list in order (see `tick_ok`).
pub fn monitor_tick(devices: &Vec<MonitorCandidate>, initialized: &mut Vec<String>) -> (plans: Vec<TickPlan>)
    ensures
        tick_ok(old(initialized)@, devices@, plans@, final(initialized)@),
{
    let ghost before = initialized@;
    let ghost devs = devices@;
    let mut kept: Vec<String> = Vec::new();
    let mut i: usize = 0;
    while i < initialized.len()
        invariant
            initialized@ == before,
            devices@ == devs,
            i <= before.len(),
            forall|x: Seq<char>|
                #[trigger] has_id(kept@, x) <==> (has_id(before.take(i as int), x) && listed_in(devs, x)),
        decreases initialized.len() - i,
    {
        let ghost k0 = kept@;
        proof {
            assert(before.take(i as int).push(before[i as int]) =~= before.take(i + 1));
        }
        if listed_device(devices, initialized[i].as_str()) {
            let s = initialized[i].clone();
            kept.push(s);
            proof {
                assert forall|x: Seq<char>| #[trigger] has_id(kept@, x) <==> (has_id(
                    before.take(i + 1),
                    x,
                ) && listed_in(devs, x)) by {
                    lemma_has_id_push(k0, s, x);
                    lemma_has_id_push(before.take(i as int), before[i as int], x);
                }
            }
        } else {
            proof {
                assert forall|x: Seq<char>| #[trigger] has_id(kept@, x) <==> (has_id(
                    before.take(i + 1),
                    x,
                ) && listed_in(devs, x)) by {
                    lemma_has_id_push(before.take(i as int), before[i as int], x);
                }
            }
        }
        i = i + 1;
    }
    proof {
        assert(before.take(before.len() as int) =~= before);
    }
    *initialized = kept;
    let mut plans: Vec<TickPlan> = Vec::new();
    let mut k: usize = 0;
    while k < devices.len()
        invariant
            devices@ == devs,
            k <= devs.len(),
            plans@.len() == k,
            forall|j: int|
                0 <= j < k ==> #[trigger] plans@[j] == (if is_monitored(devs[j]) {
                    TickPlan::Poll {
                        first: !has_id(before, devs[j].id@) && !watched_before(devs, j, devs[j].id@),
                    }
                } else {
                    TickPlan::Skip
                }),
            forall|x: Seq<char>|
                #[trigger] has_id(initialized@, x) <==> (has_id(before, x) && listed_in(devs, x))
                    || watched_before(devs, k as int, x),
        decreases devices.len() - k,
    {
        let d = &devices[k];
        let ghost cur = initialized@;
        if should_monitor(d.av_transport, d.in_group, d.is_master) {
            proof {
                assert(listed_in(devs, d.id@)) by {
                    assert(devs[k as int].id@ == d.id@);
                }
                assert(has_id(cur, d.id@) <==> has_id(before, d.id@) || watched_before(devs, k as int, d.id@));
            }
            let first = mark_initialized(initialized, d.id.as_str());
            plans.push(TickPlan::Poll { first });
            proof {
                assert forall|x: Seq<char>| #[trigger] has_id(initialized@, x) <==> (has_id(before, x)
                    && listed_in(devs, x)) || watched_before(devs, k + 1, x) by {
                    if first {
                        lemma_has_id_push(cur, initialized@.last(), x);
                        assert(initialized@ == cur.push(initialized@.last()));
                    }
                    if watched_before(devs, k + 1, x) && !watched_before(devs, k as int, x) {
                        let j = choose|j: int| 0 <= j < k + 1 && is_monitored(devs[j]) && #[trigger] devs[j].id@ == x;
                        assert(j == k);
                    }
                    if watched_before(devs, k as int, x) {
                        let j = choose|j: int| 0 <= j < k && is_monitored(devs[j]) && #[trigger] devs[j].id@ == x;
                        assert(0 <= j < k + 1 && is_monitored(devs[j]) && devs[j].id@ == x);
                    }
                    if x == d.id@ {
                        assert(0 <= k < k + 1 && is_monitored(devs[k as int]) && devs[k as int].id@ == x);
                    }
                }
            }
        } else {
            plans.push(TickPlan::Skip);
            proof {
                assert forall|x: Seq<char>| #[trigger] has_id(initialized@, x) <==> (has_id(before, x)
                    && listed_in(devs, x)) || watched_before(devs, k + 1, x) by {
                    if watched_before(devs, k + 1, x) {
                        let j = choose|j: int| 0 <= j < k + 1 && is_monitored(devs[j]) && #[trigger] devs[j].id@ == x;
                        assert(j != k);
                    }
                    if watched_before(devs, k as int, x) {
                        let j = choose|j: int| 0 <= j < k && is_monitored(devs[j]) && #[trigger] devs[j].id@ == x;
                        assert(0 <= j < k + 1 && is_monitored(devs[j]) && devs[j].id@ == x);
                    }
                }
            }
        }
        k = k + 1;
    }
    plans
}

/// A device that stays in the list from one tick to the next, watched at
/// both, has its transport settings read at the first of them only.
pub proof fn settings_read_once_while_present(
    b0: Seq<String>,
    d1: Seq<MonitorCandidate>,
    p1: Seq<TickPlan>,
    b1: Seq<String>,
    d2: Seq<MonitorCandidate>,
    p2: Seq<TickPlan>,
    b2: Seq<String>,
    i: int,
    j: int,
)
    requires
        tick_ok(b0, d1, p1, b1),
        tick_ok(b1, d2, p2, b2),
        0 <= i < d1.len(),
        is_monitored(d1[i]),
        0 <= j < d2.len(),
        is_monitored(d2[j]),
        d2[j].id@ == d1[i].id@,
    ensures
        p2[j] == (TickPlan::Poll { first: false }),
{
    assert(watched_before(d1, d1.len() as int, d1[i].id@));
    assert(has_id(b1, d1[i].id@));
    assert(p2[j] == (TickPlan::Poll {
        first: !has_id(b1, d2[j].id@) && !watched_before(d2, j, d2[j].id@),
    }));
}

} // verus!
