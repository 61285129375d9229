//! What the control plane computes around a WiiM device's two APIs: the
//! records it reads from UPnP service replies, the commands and reply checks
//! of the HTTPS API, and the device identity found by discovery.

use vstd::prelude::*;

use vstd::hash_map::StringHashMap;

use crate::soap_client::values_view;
use crate::text::{
    decimal, decimal_string, has_substring, contains_substring, parse_u32, parsed_u32, push_str, remove_all,
    remove_all_spec, split_char, split_spec, str_eq, trim, trim_spec,
};
use crate::urls::{parse_url, parts_view, url_parts, UrlParts, UrlPartsView};
use crate::xml_tree::{
    child_text_in, child_text_in_spec, document_nodes, find_named, first_named, nodes_view, opt_view,
    parse_document, NodeView, XmlNode,
};

verus! {

broadcast use vstd::seq_lib::group_seq_properties;

/// A reply value, or the empty string when the reply lacks it.
pub open spec fn value_or_empty(v: Map<Seq<char>, Seq<char>>, key: Seq<char>) -> Seq<char> {
    if v.contains_key(key) {
        v[key]
    } else {
        Seq::empty()
    }
}

/// A reply value read as a `u32`, or 0 when it is missing or not a number.
pub open spec fn value_u32(v: Map<Seq<char>, Seq<char>>, key: Seq<char>) -> u32 {
    if v.contains_key(key) {
        match parsed_u32(v[key]) {
            Some(n) => n,
            None => 0,
        }
    } else {
        0
    }
}

/// A reply value read as a mute flag: `"1"` or `"true"`.
pub open spec fn value_flag(v: Map<Seq<char>, Seq<char>>, key: Seq<char>) -> bool {
    v.contains_key(key) && (v[key] == "1"@ || v[key] == "true"@)
}

/// Read a reply value, empty when missing.
pub fn get_or_empty(values: &StringHashMap<String>, key: &str) -> (r: String)
    ensures
        r@ == value_or_empty(values_view(values@), key@),
{
    match values.get(key) {
        Some(s) => s.clone(),
        None => String::new(),
    }
}

/// Read a reply value as a `u32`, 0 when missing or not a number.
pub fn get_u32(values: &StringHashMap<String>, key: &str) -> (r: u32)
    ensures
        r == value_u32(values_view(values@), key@),
{
    match values.get(key) {
        Some(s) => match parse_u32(s.as_str()) {
            Some(n) => n,
            None => 0,
        },
        None => 0,
    }
}

/// Read a reply value as a mute flag.
pub fn get_flag(values: &StringHashMap<String>, key: &str) -> (r: bool)
    ensures
        r == value_flag(values_view(values@), key@),
{
    match values.get(key) {
        Some(s) => str_eq(s.as_str(), "1") || str_eq(s.as_str(), "true"),
        None => false,
    }
}

/// The playback position a device reports.
#[derive(Debug)]
pub struct PositionInfo {
    pub track: u32,
    pub track_duration: String,
    pub track_metadata: String,
    pub track_uri: String,
    pub rel_time: String,
    pub abs_time: String,
}

/// Read `GetPositionInfo`'s reply.
pub fn position_info(values: &StringHashMap<String>) -> (r: PositionInfo)
    ensures
        r.track == value_u32(values_view(values@), "Track"@),
        r.track_duration@ == value_or_empty(values_view(values@), "TrackDuration"@),
        r.track_metadata@ == value_or_empty(values_view(values@), "TrackMetaData"@),
        r.track_uri@ == value_or_empty(values_view(values@), "TrackURI"@),
        r.rel_time@ == value_or_empty(values_view(values@), "RelTime"@),
        r.abs_time@ == value_or_empty(values_view(values@), "AbsTime"@),
{
    PositionInfo {
        track: get_u32(values, "Track"),
        track_duration: get_or_empty(values, "TrackDuration"),
        track_metadata: get_or_empty(values, "TrackMetaData"),
        track_uri: get_or_empty(values, "TrackURI"),
        rel_time: get_or_empty(values, "RelTime"),
        abs_time: get_or_empty(values, "AbsTime"),
    }
}

/// The transport state a device reports.
#[derive(Debug)]
pub struct TransportInfo {
    pub current_transport_state: String,
    pub current_transport_status: String,
    pub current_speed: String,
}

/// Read `GetTransportInfo`'s reply.
pub fn transport_info(values: &StringHashMap<String>) -> (r: TransportInfo)
    ensures
        r.current_transport_state@ == value_or_empty(values_view(values@), "CurrentTransportState"@),
        r.current_transport_status@ == value_or_empty(values_view(values@), "CurrentTransportStatus"@),
        r.current_speed@ == value_or_empty(values_view(values@), "CurrentSpeed"@),
{
    TransportInfo {
        current_transport_state: get_or_empty(values, "CurrentTransportState"),
        current_transport_status: get_or_empty(values, "CurrentTransportStatus"),
        current_speed: get_or_empty(values, "CurrentSpeed"),
    }
}

/// The media a device holds.
#[derive(Debug)]
pub struct MediaInfo {
    pub nr_tracks: u32,
    pub media_duration: String,
    pub current_uri: String,
    pub current_uri_metadata: String,
    pub track_source: String,
}

/// Read `GetMediaInfo`'s reply.
pub fn media_info(values: &StringHashMap<String>) -> (r: MediaInfo)
    ensures
        r.nr_tracks == value_u32(values_view(values@), "NrTracks"@),
        r.media_duration@ == value_or_empty(values_view(values@), "MediaDuration"@),
        r.current_uri@ == value_or_empty(values_view(values@), "CurrentURI"@),
        r.current_uri_metadata@ == value_or_empty(values_view(values@), "CurrentURIMetaData"@),
        r.track_source@ == value_or_empty(values_view(values@), "TrackSource"@),
{
    MediaInfo {
        nr_tracks: get_u32(values, "NrTracks"),
        media_duration: get_or_empty(values, "MediaDuration"),
        current_uri: get_or_empty(values, "CurrentURI"),
        current_uri_metadata: get_or_empty(values, "CurrentURIMetaData"),
        track_source: get_or_empty(values, "TrackSource"),
    }
}

/// The play mode settings a device reports.
#[derive(Debug)]
pub struct TransportSettings {
    pub play_mode: String,
    pub rec_quality_mode: String,
}

/// Read `GetTransportSettings`'s reply.
pub fn transport_settings(values: &StringHashMap<String>) -> (r: TransportSettings)
    ensures
        r.play_mode@ == value_or_empty(values_view(values@), "PlayMode"@),
        r.rec_quality_mode@ == value_or_empty(values_view(values@), "RecQualityMode"@),
{
    TransportSettings {
        play_mode: get_or_empty(values, "PlayMode"),
        rec_quality_mode: get_or_empty(values, "RecQualityMode"),
    }
}

/// The queue position a device reports.
#[derive(Debug)]
pub struct QueueIndex {
    pub current_index: u32,
    pub preloading_index: u32,
    pub current_page: String,
    pub track_nums: u32,
}

/// Read `GetQueueIndex`'s reply.
pub fn queue_index(values: &StringHashMap<String>) -> (r: QueueIndex)
    ensures
        r.current_index == value_u32(values_view(values@), "CurrentIndex"@),
        r.preloading_index == value_u32(values_view(values@), "PreloadingIndex"@),
        r.current_page@ == value_or_empty(values_view(values@), "CurrentPage"@),
        r.track_nums == value_u32(values_view(values@), "TrackNums"@),
{
    QueueIndex {
        current_index: get_u32(values, "CurrentIndex"),
        preloading_index: get_u32(values, "PreloadingIndex"),
        current_page: get_or_empty(values, "CurrentPage"),
        track_nums: get_u32(values, "TrackNums"),
    }
}

/// What `GetInfoEx` reports: transport, volume and multi-room state.
pub struct InfoEx {
    pub transport_state: String,
    pub track_duration: String,
    pub track_metadata: String,
    pub track_uri: String,
    pub rel_time: String,
    pub loop_mode: String,
    pub play_type: String,
    pub current_volume: String,
    pub current_mute: String,
    pub slave_flag: String,
    pub master_uuid: String,
    pub slave_list: String,
    pub track_source: String,
    pub raw: StringHashMap<String>,
}

/// Read `GetInfoEx`'s reply; the reply itself is kept as `raw`.
pub fn info_ex(values: StringHashMap<String>) -> (r: InfoEx)
    ensures
        r.transport_state@ == value_or_empty(values_view(values@), "CurrentTransportState"@),
        r.track_duration@ == value_or_empty(values_view(values@), "TrackDuration"@),
        r.track_metadata@ == value_or_empty(values_view(values@), "TrackMetaData"@),
        r.track_uri@ == value_or_empty(values_view(values@), "TrackURI"@),
        r.rel_time@ == value_or_empty(values_view(values@), "RelTime"@),
        r.loop_mode@ == value_or_empty(values_view(values@), "LoopMode"@),
        r.play_type@ == value_or_empty(values_view(values@), "PlayType"@),
        r.current_volume@ == value_or_empty(values_view(values@), "CurrentVolume"@),
        r.current_mute@ == value_or_empty(values_view(values@), "CurrentMute"@),
        r.slave_flag@ == value_or_empty(values_view(values@), "SlaveFlag"@),
        r.master_uuid@ == value_or_empty(values_view(values@), "MasterUUID"@),
        r.slave_list@ == value_or_empty(values_view(values@), "SlaveList"@),
        r.track_source@ == value_or_empty(values_view(values@), "TrackSource"@),
        r.raw@ == values@,
{
    InfoEx {
        transport_state: get_or_empty(&values, "CurrentTransportState"),
        track_duration: get_or_empty(&values, "TrackDuration"),
        track_metadata: get_or_empty(&values, "TrackMetaData"),
        track_uri: get_or_empty(&values, "TrackURI"),
        rel_time: get_or_empty(&values, "RelTime"),
        loop_mode: get_or_empty(&values, "LoopMode"),
        play_type: get_or_empty(&values, "PlayType"),
        current_volume: get_or_empty(&values, "CurrentVolume"),
        current_mute: get_or_empty(&values, "CurrentMute"),
        slave_flag: get_or_empty(&values, "SlaveFlag"),
        master_uuid: get_or_empty(&values, "MasterUUID"),
        slave_list: get_or_empty(&values, "SlaveList"),
        track_source: get_or_empty(&values, "TrackSource"),
        raw: values,
    }
}

/// One follower a master lists.
#[derive(Debug, Clone)]
pub struct SlaveInfo {
    pub name: String,
    pub uuid: String,
    pub ip: String,
}

/// A master's list of followers.
#[derive(Debug, Clone)]
pub struct SlaveListResponse {
    pub slaves: u32,
    pub slave_list: Vec<SlaveInfo>,
}

/// The device ids of a master's followers: each one's UUID without its
/// `uuid:` prefix, in the order listed.
pub fn slave_device_ids(list: &SlaveListResponse) -> (r: Vec<String>)
    ensures
        r@.len() == list.slave_list@.len(),
        forall|k: int| 0 <= k < r@.len() ==> #[trigger] r@[k]@ == remove_all_spec(list.slave_list@[k].uuid@, "uuid:"@),
{
    let mut r: Vec<String> = Vec::new();
    let mut i: usize = 0;
    while i < list.slave_list.len()
        invariant
            i <= list.slave_list@.len(),
            r@.len() == i,
            forall|k: int| 0 <= k < i ==> #[trigger] r@[k]@ == remove_all_spec(list.slave_list@[k].uuid@, "uuid:"@),
        decreases list.slave_list.len() - i,
    {
        r.push(device_id_from_udn(list.slave_list[i].uuid.as_str()));
        i = i + 1;
    }
    r
}

/// One follower a master drops when its group is dissolved: the command
/// that drops it and the device whose membership then ends.
#[derive(Debug)]
pub struct KickStep {
    pub command: String,
    pub device_id: String,
}

/// The steps that dissolve a master's group over HTTPS: for each listed
/// follower, in order, the kick-out command by its address and its device
/// id (its UUID without `uuid:`).
pub fn kick_steps(list: &SlaveListResponse) -> (r: Vec<KickStep>)
    ensures
        r@.len() == list.slave_list@.len(),
        forall|k: int| 0 <= k < r@.len() ==> {
            &&& #[trigger] r@[k].command@ == "multiroom:SlaveKickout:"@ + list.slave_list@[k].ip@
            &&& r@[k].device_id@ == remove_all_spec(list.slave_list@[k].uuid@, "uuid:"@)
        },
{
    let mut r: Vec<KickStep> = Vec::new();
    let mut i: usize = 0;
    while i < list.slave_list.len()
        invariant
            i <= list.slave_list@.len(),
            r@.len() == i,
            forall|k: int| 0 <= k < i ==> {
                &&& #[trigger] r@[k].command@ == "multiroom:SlaveKickout:"@ + list.slave_list@[k].ip@
                &&& r@[k].device_id@ == remove_all_spec(list.slave_list@[k].uuid@, "uuid:"@)
            },
        decreases list.slave_list.len() - i,
    {
        let s = &list.slave_list[i];
        r.push(KickStep { command: slave_kickout_command(s.ip.as_str()), device_id: device_id_from_udn(s.uuid.as_str()) });
        i = i + 1;
    }
    r
}

/// What `getStatusEx` reports that the control plane uses.
#[derive(Debug, Clone)]
pub struct StatusEx {
    pub source: Option<String>,
    pub rssi: Option<i32>,
    pub ssid: Option<String>,
}

/// Read `getStatusEx`'s fields: the input is its `mode`, else its `source`.
pub fn status_ex(mode: Option<String>, source: Option<String>, rssi: Option<i32>, ssid: Option<String>) -> (r: StatusEx)
    ensures
        opt_view(r.source) == (match mode {
            Some(m) => Some(m@),
            None => opt_view(source),
        }),
        r.rssi == rssi,
        opt_view(r.ssid) == opt_view(ssid),
{
    StatusEx {
        source: match mode {
            Some(m) => Some(m),
            None => source,
        },
        rssi,
        ssid,
    }
}

/// The `EQStat` field of an equalizer reply, by its JSON kind.
#[derive(Debug)]
pub enum EqStat {
    /// A string.
    Text(String),
    /// A number, with its value when that is an `i64`.
    Number(Option<i64>),
    /// Anything else, or missing.
    Other,
}

/// Whether an `EQStat` says the equalizer is on: the text `On`, or a
/// non-zero integer.
pub open spec fn eq_enabled_spec(stat: EqStat) -> bool {
    match stat {
        EqStat::Text(s) => s@ == "On"@,
        EqStat::Number(n) => match n {
            Some(v) => v != 0,
            None => false,
        },
        EqStat::Other => false,
    }
}

/// Read whether the equalizer is on.
pub fn eq_enabled(stat: &EqStat) -> (r: bool)
    ensures
        r == eq_enabled_spec(*stat),
{
    match stat {
        EqStat::Text(s) => str_eq(s.as_str(), "On"),
        EqStat::Number(n) => match n {
            Some(v) => *v != 0,
            None => false,
        },
        EqStat::Other => false,
    }
}

/// What `GetSimpleDeviceInfo` reports.
pub struct SimpleDeviceInfo {
    pub multi_type: String,
    pub slave_mask: String,
    pub play_mode: String,
    pub name: String,
    pub volume: u32,
    pub channel: String,
    pub slave_list: String,
    pub raw: StringHashMap<String>,
}

/// Read `GetSimpleDeviceInfo`'s reply; the reply itself is kept as `raw`.
pub fn simple_device_info(values: StringHashMap<String>) -> (r: SimpleDeviceInfo)
    ensures
        r.multi_type@ == value_or_empty(values_view(values@), "MultiType"@),
        r.slave_mask@ == value_or_empty(values_view(values@), "SlaveMask"@),
        r.play_mode@ == value_or_empty(values_view(values@), "PlayMode"@),
        r.name@ == value_or_empty(values_view(values@), "Name"@),
        r.volume == value_u32(values_view(values@), "CurrentVolume"@),
        r.channel@ == value_or_empty(values_view(values@), "CurrentChannel"@),
        r.slave_list@ == value_or_empty(values_view(values@), "SlaveList"@),
        r.raw@ == values@,
{
    SimpleDeviceInfo {
        multi_type: get_or_empty(&values, "MultiType"),
        slave_mask: get_or_empty(&values, "SlaveMask"),
        play_mode: get_or_empty(&values, "PlayMode"),
        name: get_or_empty(&values, "Name"),
        volume: get_u32(&values, "CurrentVolume"),
        channel: get_or_empty(&values, "CurrentChannel"),
        slave_list: get_or_empty(&values, "SlaveList"),
        raw: values,
    }
}

/// What `GetControlDeviceInfo` reports.
pub struct ControlDeviceInfo {
    pub multi_type: String,
    pub play_mode: String,
    pub router: String,
    pub ssid: String,
    pub slave_mask: String,
    pub volume: u32,
    pub muted: bool,
    pub channel: String,
    pub slave_list: String,
    pub status: String,
    pub raw: StringHashMap<String>,
}

/// Read `GetControlDeviceInfo`'s reply; the reply itself is kept as `raw`.
pub fn control_device_info(values: StringHashMap<String>) -> (r: ControlDeviceInfo)
    ensures
        r.multi_type@ == value_or_empty(values_view(values@), "MultiType"@),
        r.play_mode@ == value_or_empty(values_view(values@), "PlayMode"@),
        r.router@ == value_or_empty(values_view(values@), "Router"@),
        r.ssid@ == value_or_empty(values_view(values@), "Ssid"@),
        r.slave_mask@ == value_or_empty(values_view(values@), "SlaveMask"@),
        r.volume == value_u32(values_view(values@), "CurrentVolume"@),
        r.muted == value_flag(values_view(values@), "CurrentMute"@),
        r.channel@ == value_or_empty(values_view(values@), "CurrentChannel"@),
        r.slave_list@ == value_or_empty(values_view(values@), "SlaveList"@),
        r.status@ == value_or_empty(values_view(values@), "Status"@),
        r.raw@ == values@,
{
    ControlDeviceInfo {
        multi_type: get_or_empty(&values, "MultiType"),
        play_mode: get_or_empty(&values, "PlayMode"),
        router: get_or_empty(&values, "Router"),
        ssid: get_or_empty(&values, "Ssid"),
        slave_mask: get_or_empty(&values, "SlaveMask"),
        volume: get_u32(&values, "CurrentVolume"),
        muted: get_flag(&values, "CurrentMute"),
        channel: get_or_empty(&values, "CurrentChannel"),
        slave_list: get_or_empty(&values, "SlaveList"),
        status: get_or_empty(&values, "Status"),
        raw: values,
    }
}

/// The name a device goes by after discovery: `DeviceName` from its
/// control info, else `Name`, else the name it had.
pub open spec fn reported_name(raw: Map<Seq<char>, Seq<char>>, current: Seq<char>) -> Seq<char> {
    if raw.contains_key("DeviceName"@) {
        raw["DeviceName"@]
    } else if raw.contains_key("Name"@) {
        raw["Name"@]
    } else {
        current
    }
}

/// Pick the name a device goes by from its control info.
pub fn device_name_from(raw: &StringHashMap<String>, current: String) -> (r: String)
    ensures
        r@ == reported_name(values_view(raw@), current@),
{
    match raw.get("DeviceName") {
        Some(n) => n.clone(),
        None => match raw.get("Name") {
            Some(n) => n.clone(),
            None => current,
        },
    }
}

/// The pieces of a comma-separated list, trimmed.
pub open spec fn comma_list(s: Seq<char>) -> Seq<Seq<char>> {
    split_spec(s, ',').map_values(|p: Seq<char>| trim_spec(p))
}

fn trimmed_pieces(s: &str) -> (r: Vec<String>)
    ensures
        r@.map_values(|p: String| p@) == comma_list(s@),
{
    let parts = split_char(s, ',');
    let ghost pv = parts@.map_values(|p: String| p@);
    let mut r: Vec<String> = Vec::new();
    let mut i: usize = 0;
    while i < parts.len()
        invariant
            i <= parts@.len(),
            pv == parts@.map_values(|p: String| p@),
            pv == split_spec(s@, ','),
            r@.map_values(|p: String| p@) == pv.take(i as int).map_values(|p: Seq<char>| trim_spec(p)),
        decreases parts.len() - i,
    {
        let ghost prev = r@.map_values(|p: String| p@);
        let t = trim(parts[i].as_str());
        let ghost tv = t@;
        r.push(t);
        proof {
            assert(r@.map_values(|p: String| p@) =~= prev.push(tv));
            assert(pv.take(i + 1).map_values(|p: Seq<char>| trim_spec(p)) =~= pv.take(i as int).map_values(
                |p: Seq<char>| trim_spec(p),
            ).push(trim_spec(pv[i as int])));
        }
        i = i + 1;
    }
    assert(pv.take(pv.len() as int) =~= pv);
    r
}

/// The equalizer presets a device lists: its comma-separated list, each
/// name trimmed.
pub fn preset_names(list: &str) -> (r: Vec<String>)
    ensures
        r@.map_values(|p: String| p@) == comma_list(list@),
{
    trimmed_pieces(list)
}

/// The transport actions a device allows: its comma-separated list, each
/// trimmed, empty ones dropped.
pub fn transport_actions(list: &str) -> (r: Vec<String>)
    ensures
        r@.map_values(|p: String| p@) == comma_list(list@).filter(|p: Seq<char>| p.len() > 0),
{
    let pieces = trimmed_pieces(list);
    let ghost pv = pieces@.map_values(|p: String| p@);
    let mut r: Vec<String> = Vec::new();
    let mut i: usize = 0;
    while i < pieces.len()
        invariant
            i <= pieces@.len(),
            pv == pieces@.map_values(|p: String| p@),
            r@.map_values(|p: String| p@) == pv.take(i as int).filter(|p: Seq<char>| p.len() > 0),
        decreases pieces.len() - i,
    {
        let ghost prev = r@.map_values(|p: String| p@);
        proof {
            reveal(Seq::filter);
            assert(pv.take(i + 1).drop_last() =~= pv.take(i as int));
            assert(pv.take(i + 1).last() == pieces@[i as int]@);
        }
        if pieces[i].as_str().unicode_len() > 0 {
            let p = pieces[i].clone();
            let ghost v = p@;
            r.push(p);
            assert(r@.map_values(|p: String| p@) =~= prev.push(v));
        }
        i = i + 1;
    }
    assert(pv.take(pv.len() as int) =~= pv);
    r
}

/// The base URL of a device's HTTPS API.
pub fn https_base_url(ip: &str) -> (r: String)
    ensures
        r@ == "https://"@ + ip@,
{
    let mut s = String::from_str("https://");
    push_str(&mut s, ip);
    s
}

/// The URL of an HTTPS API command.
pub fn command_url(base_url: &str, cmd: &str) -> (r: String)
    ensures
        r@ == base_url@ + "/httpapi.asp?command="@ + cmd@,
{
    let mut s = base_url.to_owned();
    push_str(&mut s, "/httpapi.asp?command=");
    push_str(&mut s, cmd);
    s
}

/// Whether a command reply is the API's refusal (`unknown command`).
pub fn is_unknown_command(text: &str) -> (r: bool)
    ensures
        r == (text@ == "unknown command"@),
{
    str_eq(text, "unknown command")
}

/// Whether a command reply says `OK`, ignoring surrounding white space.
pub fn reply_ok(text: &str) -> (r: bool)
    ensures
        r == (trim_spec(text@) == "OK"@),
{
    let t = trim(text);
    str_eq(t.as_str(), "OK")
}

/// Whether a `getStatusEx` reply shows a device that answers the HTTPS API:
/// it mentions `uuid`.
pub fn probe_reply_ok(body: &str) -> (r: bool)
    ensures
        r == has_substring(body@, "uuid"@),
{
    contains_substring(body, "uuid")
}

/// The `status` string of a JSON object reply, if the reply is one.
pub uninterp spec fn json_status(text: Seq<char>) -> Option<Seq<char>>;

/// Read the `status` field of a JSON reply.
///
/// Parses with `serde_json::from_str` into a `serde_json::Value` and takes
/// its `status` member when that is a string. The contract names the
/// result: it depends on the text alone.
#[verifier::external_body]
fn json_status_of(text: &str) -> (r: Option<String>)
    ensures
        match r {
            Some(s) => json_status(text@) == Some(s@),
            None => json_status(text@) is None,
        },
{
    serde_json::from_str::<serde_json::Value>(text).ok()?.get("status")?.as_str().map(str::to_owned)
}

/// What a reply means, given the JSON `status` read from it (`None` when
/// it is no JSON object with one): `Ok` for a status of `OK` or a plain
/// `OK`, else the failure text.
pub open spec fn status_from(text: Seq<char>, status: Option<Seq<char>>) -> Result<(), Seq<char>> {
    match status {
        Some(s) => if s == "OK"@ {
            Ok(())
        } else {
            Err(s)
        },
        None => if trim_spec(text) == "OK"@ {
            Ok(())
        } else {
            Err(text)
        },
    }
}

/// What a command that answers with a status means: `Ok` for a JSON status
/// of `OK` or a plain `OK`, else the failure text.
pub open spec fn status_check(text: Seq<char>) -> Result<(), Seq<char>> {
    status_from(text, json_status(text))
}

/// Why an HTTPS API call failed.
#[derive(Debug, Clone, PartialEq, Eq)]
pub enum HttpsApiError {
    /// The HTTP exchange failed; the message says how.
    Http(String),
    /// The reply was not the JSON expected; the message says why.
    Json(String),
    /// The device refused or reported a failure, with its text.
    ApiFailed(String),
}

/// Read a command's reply: the API's refusal (`unknown command`) is a
/// failure, anything else is the answer.
pub fn command_reply(text: String) -> (r: Result<String, HttpsApiError>)
    ensures
        text@ == "unknown command"@ ==> (r matches Err(HttpsApiError::ApiFailed(m)) && m@ == text@),
        text@ != "unknown command"@ ==> (r matches Ok(t) && t@ == text@),
{
    if is_unknown_command(text.as_str()) {
        Err(HttpsApiError::ApiFailed(text))
    } else {
        Ok(text)
    }
}

/// Judge a command reply by the JSON `status` read from it (`None` when it
/// is no JSON object with one).
pub fn status_from_reply(text: &str, status: Option<String>) -> (r: Result<(), HttpsApiError>)
    ensures
        match status_from(text@, opt_view(status)) {
            Ok(()) => r is Ok,
            Err(e) => r matches Err(HttpsApiError::ApiFailed(m)) && m@ == e,
        },
{
    match status {
        Some(s) => {
            if str_eq(s.as_str(), "OK") {
                Ok(())
            } else {
                Err(HttpsApiError::ApiFailed(s))
            }
        },
        None => {
            if reply_ok(text) {
                Ok(())
            } else {
                Err(HttpsApiError::ApiFailed(text.to_owned()))
            }
        },
    }
}

/// Check a command reply that carries a status.
pub fn check_status(text: &str) -> (r: Result<(), HttpsApiError>)
    ensures
        match status_check(text@) {
            Ok(()) => r is Ok,
            Err(e) => r matches Err(HttpsApiError::ApiFailed(m)) && m@ == e,
        },
{
    let status = json_status_of(text);
    status_from_reply(text, status)
}

/// Check a command reply that answers `OK`, ignoring surrounding white
/// space; anything else is the failure text.
pub fn check_ok(text: String) -> (r: Result<(), HttpsApiError>)
    ensures
        trim_spec(text@) == "OK"@ ==> r is Ok,
        trim_spec(text@) != "OK"@ ==> (r matches Err(HttpsApiError::ApiFailed(m)) && m@ == text@),
{
    if reply_ok(text.as_str()) {
        Ok(())
    } else {
        Err(HttpsApiError::ApiFailed(text))
    }
}

/// The command that makes a device follow a master.
pub fn join_group_command(master_ip: &str) -> (r: String)
    ensures
        r@ == "ConnectMasterAp:JoinGroupMaster:eth"@ + master_ip@ + ":wifi"@ + master_ip@,
{
    let mut s = String::from_str("ConnectMasterAp:JoinGroupMaster:eth");
    push_str(&mut s, master_ip);
    push_str(&mut s, ":wifi");
    push_str(&mut s, master_ip);
    s
}

/// The command that makes a master drop a follower.
pub fn slave_kickout_command(slave_ip: &str) -> (r: String)
    ensures
        r@ == "multiroom:SlaveKickout:"@ + slave_ip@,
{
    let mut s = String::from_str("multiroom:SlaveKickout:");
    push_str(&mut s, slave_ip);
    s
}

/// The command that switches a device's input.
pub fn switch_source_command(source: &str) -> (r: String)
    ensures
        r@ == "setPlayerCmd:switchmode:"@ + source@,
{
    let mut s = String::from_str("setPlayerCmd:switchmode:");
    push_str(&mut s, source);
    s
}

/// The command that loads an equalizer preset.
pub fn eq_load_command(name: &str) -> (r: String)
    ensures
        r@ == "EQLoad:"@ + name@,
{
    let mut s = String::from_str("EQLoad:");
    push_str(&mut s, name);
    s
}

/// The command that saves the equalizer as a preset.
pub fn eq_save_command(name: &str) -> (r: String)
    ensures
        r@ == "EQSave:"@ + name@,
{
    let mut s = String::from_str("EQSave:");
    push_str(&mut s, name);
    s
}

/// The command that deletes an equalizer preset.
pub fn eq_del_command(name: &str) -> (r: String)
    ensures
        r@ == "EQDel:"@ + name@,
{
    let mut s = String::from_str("EQDel:");
    push_str(&mut s, name);
    s
}

/// The command that sets the volume.
pub fn volume_command(volume: u32) -> (r: String)
    ensures
        r@ == "setPlayerCmd:vol:"@ + decimal(volume as nat),
{
    let mut s = String::from_str("setPlayerCmd:vol:");
    let v = decimal_string(volume as u64);
    push_str(&mut s, v.as_str());
    s
}

/// The command that mutes or unmutes.
pub fn mute_command(mute: bool) -> (r: String)
    ensures
        r@ == "setPlayerCmd:mute:"@ + (if mute { "1"@ } else { "0"@ }),
{
    let mut s = String::from_str("setPlayerCmd:mute:");
    push_str(&mut s, flag_value(mute));
    s
}

/// The command that turns crossfading on or off.
pub fn crossfade_command(enabled: bool) -> (r: String)
    ensures
        r@ == "SetFadeFeature:"@ + (if enabled { "1"@ } else { "0"@ }),
{
    let mut s = String::from_str("SetFadeFeature:");
    push_str(&mut s, flag_value(enabled));
    s
}

/// The flag value the API takes for a boolean: `"1"` or `"0"`.
pub fn flag_value(on: bool) -> (r: &'static str)
    ensures
        r@ == (if on { "1"@ } else { "0"@ }),
{
    if on {
        "1"
    } else {
        "0"
    }
}

/// A device's record id: its UDN with every `uuid:` removed.
pub fn device_id_from_udn(udn: &str) -> (r: String)
    ensures
        r@ == remove_all_spec(udn@, "uuid:"@),
{
    proof {
        reveal_strlit("uuid:");
    }
    remove_all(udn, "uuid:")
}

/// The `M-SEARCH` request that looks for media renderers.
pub open spec fn msearch_request_spec() -> Seq<char> {
    "M-SEARCH * HTTP/1.1\r\nHOST: 239.255.255.250:1900\r\nMAN: \"ssdp:discover\"\r\nMX: 3\r\nST: urn:schemas-upnp-org:device:MediaRenderer:1\r\n\r\n"@
}

/// Build the `M-SEARCH` request that looks for media renderers.
pub fn msearch_request() -> (r: String)
    ensures
        r@ == msearch_request_spec(),
{
    String::from_str(
        "M-SEARCH * HTTP/1.1\r\nHOST: 239.255.255.250:1900\r\nMAN: \"ssdp:discover\"\r\nMX: 3\r\nST: urn:schemas-upnp-org:device:MediaRenderer:1\r\n\r\n",
    )
}

/// Whether a string's view is listed.
pub open spec fn listed(v: Seq<String>, s: Seq<char>) -> bool {
    exists|i: int| 0 <= i < v.len() && #[trigger] v[i]@ == s
}

fn is_listed(v: &Vec<String>, s: &str) -> (r: bool)
    ensures
        r == listed(v@, s@),
{
    let mut i: usize = 0;
    while i < v.len()
        invariant
            i <= v@.len(),
            forall|j: int| 0 <= j < i ==> #[trigger] v@[j]@ != s@,
        decreases v.len() - i,
    {
        if str_eq(v[i].as_str(), s) {
            return true;
        }
        i = i + 1;
    }
    false
}

/// Whether no two strings of a list have the same view.
pub open spec fn distinct_views(v: Seq<String>) -> bool {
    forall|i: int, j: int| 0 <= i < j < v.len() ==> #[trigger] v[i]@ != #[trigger] v[j]@
}

/// The ids of `current` that are not in `registered`, each at its first
/// occurrence, in order.
pub open spec fn new_ids_spec(current: Seq<String>, registered: Seq<String>) -> Seq<Seq<char>>
    decreases current.len(),
{
    if current.len() == 0 {
        Seq::empty()
    } else {
        let prev = new_ids_spec(current.drop_last(), registered);
        let x = current.last()@;
        if !listed(registered, x) && !prev.contains(x) {
            prev.push(x)
        } else {
            prev
        }
    }
}

/// The views of a list of strings.
pub open spec fn views(v: Seq<String>) -> Seq<Seq<char>> {
    v.map_values(|s: String| s@)
}

/// The devices found in this round that are not registered yet, each once,
/// in the order they were found: those to register.
pub fn new_ids(current: &Vec<String>, registered: &Vec<String>) -> (r: Vec<String>)
    ensures
        views(r@) == new_ids_spec(current@, registered@),
        forall|x: Seq<char>| #[trigger] listed(r@, x) <==> listed(current@, x) && !listed(registered@, x),
        distinct_views(r@),
{
    let mut r: Vec<String> = Vec::new();
    let mut i: usize = 0;
    while i < current.len()
        invariant
            i <= current@.len(),
            forall|x: Seq<char>|
                #[trigger] listed(r@, x) <==> listed(current@.take(i as int), x) && !listed(registered@, x),
            distinct_views(r@),
            views(r@) == new_ids_spec(current@.take(i as int), registered@),
        decreases current.len() - i,
    {
        let ghost r0 = r@;
        let ghost t0 = current@.take(i as int);
        let ghost t1 = current@.take(i + 1);
        proof {
            assert(t1 =~= t0.push(current@[i as int]));
            assert(t1.drop_last() =~= t0);
            assert forall|x: Seq<char>| listed(r0, x) <==> views(r0).contains(x) by {
                if listed(r0, x) {
                    let j = choose|j: int| 0 <= j < r0.len() && #[trigger] r0[j]@ == x;
                    assert(views(r0)[j] == x);
                }
                if views(r0).contains(x) {
                    let j = choose|j: int| 0 <= j < views(r0).len() && views(r0)[j] == x;
                    assert(r0[j]@ == x);
                }
            }
            assert forall|x: Seq<char>| #[trigger] listed(t1, x) <==> listed(t0, x) || current@[i as int]@ == x by {
                if listed(t1, x) {
                    let j = choose|j: int| 0 <= j < t1.len() && #[trigger] t1[j]@ == x;
                    if j < t0.len() {
                        assert(t0[j]@ == x);
                    }
                }
                if listed(t0, x) {
                    let j = choose|j: int| 0 <= j < t0.len() && #[trigger] t0[j]@ == x;
                    assert(t1[j]@ == x);
                }
                if current@[i as int]@ == x {
                    assert(t1[i as int]@ == x);
                }
            }
        }
        let c = current[i].as_str();
        if !is_listed(registered, c) && !is_listed(&r, c) {
            let s = current[i].clone();
            r.push(s);
            proof {
                assert(views(r@) =~= views(r0).push(s@));
                assert forall|x: Seq<char>| #[trigger] listed(r@, x) <==> listed(r0, x) || s@ == x by {
                    if listed(r@, x) {
                        let j = choose|j: int| 0 <= j < r@.len() && #[trigger] r@[j]@ == x;
                        if j < r0.len() {
                            assert(r0[j]@ == x);
                        }
                    }
                    if listed(r0, x) {
                        let j = choose|j: int| 0 <= j < r0.len() && #[trigger] r0[j]@ == x;
                        assert(r@[j]@ == x);
                    }
                    if s@ == x {
                        assert(r@[r0.len() as int]@ == x);
                    }
                }
                assert forall|a: int, b: int| 0 <= a < b < r@.len() implies #[trigger] r@[a]@ != #[trigger] r@[b]@ by {
                    if b == r0.len() {
                        assert(r0[a]@ == r@[a]@);
                        if r@[a]@ == s@ {
                            assert(listed(r0, s@));
                        }
                    } else {
                        assert(r0[a]@ != r0[b]@);
                    }
                }
            }
        }
        i = i + 1;
    }
    proof {
        assert(current@.take(current@.len() as int) =~= current@);
    }
    r
}

/// One discovery round: the devices to register are those found that were
/// not registered, so none is registered twice; the devices to drop are
/// exactly those known before and not found now, so none of them is one
/// that is registered in this round.
pub proof fn discovery_round(
    known: Seq<String>,
    current: Seq<String>,
    registered: Seq<String>,
    added: Seq<String>,
    removed: Seq<String>,
)
    requires
        forall|x: Seq<char>| #[trigger] listed(added, x) <==> listed(current, x) && !listed(registered, x),
        removed.map_values(|s: String| s@) == known.filter(|s: String| !listed(current, s@)).map_values(
            |s: String| s@,
        ),
    ensures
        forall|x: Seq<char>| #[trigger] listed(registered, x) ==> !listed(added, x),
        forall|x: Seq<char>| listed(current, x) && !listed(registered, x) ==> #[trigger] listed(added, x),
        forall|x: Seq<char>| #[trigger] listed(removed, x) <==> listed(known, x) && !listed(current, x),
        forall|x: Seq<char>| #[trigger] listed(removed, x) ==> !listed(added, x),
{
    let pred = |s: String| !listed(current, s@);
    let f = known.filter(pred);
    assert forall|x: Seq<char>| #[trigger] listed(removed, x) <==> listed(known, x) && !listed(current, x) by {
        if listed(removed, x) {
            let i = choose|i: int| 0 <= i < removed.len() && #[trigger] removed[i]@ == x;
            assert(removed.map_values(|s: String| s@).len() == removed.len());
            assert(f.map_values(|s: String| s@).len() == f.len());
            assert(removed.map_values(|s: String| s@)[i] == x);
            assert(f.map_values(|s: String| s@)[i] == x);
            let y = f[i];
            assert(y@ == x);
            known.lemma_filter_pred(pred, i);
            assert(f.contains(y));
            known.lemma_filter_contains_rev(pred, y);
            let k = choose|k: int| 0 <= k < known.len() && known[k] == y;
            assert(known[k]@ == x);
        }
        if listed(known, x) && !listed(current, x) {
            let k = choose|k: int| 0 <= k < known.len() && #[trigger] known[k]@ == x;
            known.lemma_filter_contains(pred, k);
            let j = choose|j: int| 0 <= j < f.len() && f[j] == known[k];
            assert(removed.map_values(|s: String| s@).len() == removed.len());
            assert(f.map_values(|s: String| s@).len() == f.len());
            assert(f.map_values(|s: String| s@)[j] == x);
            assert(removed.map_values(|s: String| s@)[j] == x);
            assert(removed[j]@ == x);
        }
    }
}

/// Keeping some strings of a list whose views differ keeps their views
/// different.
proof fn lemma_filter_distinct_views(s: Seq<String>, p: spec_fn(String) -> bool)
    requires
        distinct_views(s),
    ensures
        distinct_views(s.filter(p)),
    decreases s.len(),
{
    reveal(Seq::filter);
    if s.len() > 0 {
        let t = s.drop_last();
        assert(distinct_views(t)) by {
            assert forall|i: int, j: int| 0 <= i < j < t.len() implies #[trigger] t[i]@ != #[trigger] t[j]@ by {
                assert(t[i] == s[i] && t[j] == s[j]);
            }
        }
        lemma_filter_distinct_views(t, p);
        if p(s.last()) {
            let f = t.filter(p);
            let g = s.filter(p);
            assert(g == f.push(s.last()));
            assert forall|i: int, j: int| 0 <= i < j < g.len() implies #[trigger] g[i]@ != #[trigger] g[j]@ by {
                if j < f.len() {
                    assert(g[i] == f[i] && g[j] == f[j]);
                } else {
                    assert(g[i] == f[i]);
                    assert(f.contains(f[i]));
                    t.lemma_filter_contains_rev(p, f[i]);
                    let k = choose|k: int| 0 <= k < t.len() && t[k] == f[i];
                    assert(s[k] == t[k]);
                    assert(g[j] == s[s.len() - 1]);
                }
            }
        }
    }
}

/// What one discovery round changes, from the ids known after the last
/// round, those found now and those registered: the devices to register
/// (found now and not registered, each once, in the order found) and the
/// devices to drop (known before and not found now, in the order known).
/// None is both; none registered is registered again; and when the known
/// ids differ from each other, each device is dropped once.
pub fn discovery_changes(known: &Vec<String>, current: &Vec<String>, registered: &Vec<String>) -> (r: (
    Vec<String>,
    Vec<String>,
))
    ensures
        views(r.0@) == new_ids_spec(current@, registered@),
        r.1@.map_values(|s: String| s@) == known@.filter(|s: String| !listed(current@, s@)).map_values(
            |s: String| s@,
        ),
        distinct_views(r.0@),
        forall|x: Seq<char>| #[trigger] listed(registered@, x) ==> !listed(r.0@, x),
        forall|x: Seq<char>| listed(current@, x) && !listed(registered@, x) ==> #[trigger] listed(r.0@, x),
        forall|x: Seq<char>| #[trigger] listed(r.1@, x) <==> listed(known@, x) && !listed(current@, x),
        forall|x: Seq<char>| #[trigger] listed(r.1@, x) ==> !listed(r.0@, x),
        distinct_views(known@) ==> distinct_views(r.1@),
{
    let added = new_ids(current, registered);
    let removed = removed_ids(known, current);
    proof {
        discovery_round(known@, current@, registered@, added@, removed@);
        if distinct_views(known@) {
            let pred = |s: String| !listed(current@, s@);
            lemma_filter_distinct_views(known@, pred);
            let f = known@.filter(pred);
            assert(removed@.map_values(|s: String| s@).len() == removed@.len());
            assert(f.map_values(|s: String| s@).len() == f.len());
            assert forall|i: int, j: int| 0 <= i < j < removed@.len() implies #[trigger] removed@[i]@
                != #[trigger] removed@[j]@ by {
                assert(removed@.map_values(|s: String| s@)[i] == f.map_values(|s: String| s@)[i]);
                assert(removed@.map_values(|s: String| s@)[j] == f.map_values(|s: String| s@)[j]);
                assert(f[i]@ != f[j]@);
            }
        }
    }
    (added, removed)
}

/// The devices that stopped answering: those known before and not found in
/// this round, in the order they were known.
pub fn removed_ids(known: &Vec<String>, current: &Vec<String>) -> (r: Vec<String>)
    ensures
        r@.map_values(|s: String| s@) == known@.filter(|s: String| !listed(current@, s@)).map_values(
            |s: String| s@,
        ),
{
    let mut r: Vec<String> = Vec::new();
    let mut i: usize = 0;
    while i < known.len()
        invariant
            i <= known@.len(),
            r@.map_values(|s: String| s@) == known@.take(i as int).filter(
                |s: String| !listed(current@, s@),
            ).map_values(|s: String| s@),
        decreases known.len() - i,
    {
        let ghost prev = r@.map_values(|s: String| s@);
        proof {
            reveal(Seq::filter);
            assert(known@.take(i + 1).drop_last() =~= known@.take(i as int));
        }
        if !is_listed(current, known[i].as_str()) {
            let k = known[i].clone();
            let ghost kv = k@;
            r.push(k);
            proof {
                assert(r@.map_values(|s: String| s@) =~= prev.push(kv));
                let f = known@.take(i + 1).filter(|s: String| !listed(current@, s@));
                let g = known@.take(i as int).filter(|s: String| !listed(current@, s@));
                assert(f == g.push(known@[i as int]));
                assert(f.map_values(|s: String| s@) =~= g.map_values(|s: String| s@).push(kv));
            }
        }
        i = i + 1;
    }
    assert(known@.take(known@.len() as int) =~= known@);
    r
}

/// The UPnP device namespace.
pub const UPNP_NS: &'static str = "urn:schemas-upnp-org:device-1-0";

/// The trimmed text of a description element's first child with this
/// name, in the UPnP device namespace or in none.
pub open spec fn child_text_spec(nodes: Seq<NodeView>, parent: nat, name: Seq<char>) -> Option<Seq<char>> {
    child_text_in_spec(nodes, parent, UPNP_NS@, name)
}

/// Read the trimmed text of a description element's child.
pub fn child_text(nodes: &Vec<XmlNode>, parent: usize, name: &str) -> (r: Option<String>)
    ensures
        opt_view(r) == child_text_spec(nodes_view(nodes@), parent as nat, name@),
{
    child_text_in(nodes, parent, UPNP_NS, name)
}

/// What a device description tells about a device, and where it answers.
#[derive(Debug)]
pub struct DescribedDevice {
    pub udn: String,
    pub friendly_name: String,
    pub model_name: Option<String>,
    pub model_number: Option<String>,
    pub ip: String,
    pub port: u16,
}

/// Why a device description could not be used.
#[derive(Debug, PartialEq, Eq)]
pub enum DescriptionError {
    /// The description is not XML; the message says why.
    Xml(String),
    /// The description has no `<device>` element.
    NoDevice,
    /// The device element has no `UDN`.
    NoUdn,
    /// The description's location is not a URL.
    BadLocation,
    /// The description's location names no host.
    NoHost,
}

/// The friendly name a description gives, `"Unknown"` when it gives none.
pub open spec fn name_or_unknown(n: Option<Seq<char>>) -> Seq<char> {
    match n {
        Some(t) => t,
        None => "Unknown"@,
    }
}

/// Whether a description's nodes name a device whose children give `d`'s
/// UDN, friendly name and model.
pub open spec fn describes(nodes: Seq<NodeView>, d: DescribedDevice) -> bool {
    match first_named(nodes, "device"@) {
        Some(i) => {
            let id = nodes[i].id;
            &&& child_text_spec(nodes, id, "UDN"@) == Some(d.udn@)
            &&& d.friendly_name@ == name_or_unknown(child_text_spec(nodes, id, "friendlyName"@))
            &&& opt_view(d.model_name) == child_text_spec(nodes, id, "modelName"@)
            &&& opt_view(d.model_number) == child_text_spec(nodes, id, "modelNumber"@)
        },
        None => false,
    }
}

/// Whether the nodes hold a device element with a UDN.
pub open spec fn has_device_udn(nodes: Seq<NodeView>) -> bool {
    match first_named(nodes, "device"@) {
        Some(i) => child_text_spec(nodes, nodes[i].id, "UDN"@) is Some,
        None => false,
    }
}

/// Read the device a description's nodes name, with an empty address.
fn device_of_nodes(nodes: &Vec<XmlNode>) -> (r: Result<DescribedDevice, DescriptionError>)
    ensures
        match r {
            Ok(d) => describes(nodes_view(nodes@), d),
            Err(DescriptionError::NoDevice) => first_named(nodes_view(nodes@), "device"@) is None,
            Err(DescriptionError::NoUdn) => first_named(nodes_view(nodes@), "device"@) is Some
                && !has_device_udn(nodes_view(nodes@)),
            Err(_) => false,
        },
{
    let ghost v = nodes_view(nodes@);
    let i = match find_named(nodes, "device") {
        Some(i) => i,
        None => return Err(DescriptionError::NoDevice),
    };
    let id = nodes[i].id;
    assert(v[i as int].id == id as nat);
    let udn = match child_text(nodes, id, "UDN") {
        Some(u) => u,
        None => return Err(DescriptionError::NoUdn),
    };
    let friendly_name = match child_text(nodes, id, "friendlyName") {
        Some(n) => n,
        None => String::from_str("Unknown"),
    };
    let model_name = child_text(nodes, id, "modelName");
    let model_number = child_text(nodes, id, "modelNumber");
    proof {
        reveal_strlit("Unknown");
    }
    Ok(DescribedDevice { udn, friendly_name, model_name, model_number, ip: String::new(), port: 0 })
}

/// The address a location's parts give: the host, and the port (80 when
/// the URL gives none).
pub open spec fn address_from(parts: Option<UrlPartsView>) -> Result<(Seq<char>, u16), DescriptionError> {
    match parts {
        None => Err(DescriptionError::BadLocation),
        Some(u) => match u.host {
            None => Err(DescriptionError::NoHost),
            Some(h) => Ok(
                (
                    h,
                    match u.port {
                        Some(n) => n,
                        None => 80u16,
                    },
                ),
            ),
        },
    }
}

/// Read the device's address from the parts the URL parser read from its
/// description's location (`None` when it read none).
pub fn address_from_parts(parts: Option<UrlParts>) -> (r: Result<(String, u16), DescriptionError>)
    ensures
        match address_from(parts_view(parts)) {
            Ok((h, port)) => r matches Ok((ip, p)) && ip@ == h && p == port,
            Err(DescriptionError::BadLocation) => r matches Err(DescriptionError::BadLocation),
            Err(DescriptionError::NoHost) => r matches Err(DescriptionError::NoHost),
            Err(_) => false,
        },
{
    let parts = match parts {
        Some(parts) => parts,
        None => return Err(DescriptionError::BadLocation),
    };
    let port = parts.port;
    let ip = match parts.host {
        Some(h) => h,
        None => return Err(DescriptionError::NoHost),
    };
    let port: u16 = match port {
        Some(n) => n,
        None => 80,
    };
    Ok((ip, port))
}

/// Whether `d` is what a description and its location give.
pub open spec fn description_gives(xml: Seq<char>, location: Seq<char>, d: DescribedDevice) -> bool {
    &&& document_nodes(xml) matches Ok(nodes)
    &&& describes(nodes, d)
    &&& url_parts(location) matches Some(u)
    &&& u.host == Some(d.ip@)
    &&& d.port == (match u.port {
        Some(n) => n,
        None => 80u16,
    })
}

/// Read a device description fetched from `location`: the first `device`
/// element's UDN (required), friendly name (`"Unknown"` when missing), model
/// name and number, and the host and port (80 when the URL gives none) of
/// the location.
#[verifier::spinoff_prover]
pub fn parse_description(xml: &str, location: &str) -> (r: Result<DescribedDevice, DescriptionError>)
    ensures
        match r {
            Ok(d) => description_gives(xml@, location@, d),
            Err(DescriptionError::Xml(m)) => document_nodes(xml@) == Err::<Seq<NodeView>, Seq<char>>(m@),
            Err(DescriptionError::NoDevice) => document_nodes(xml@) matches Ok(nodes) && first_named(
                nodes,
                "device"@,
            ) is None,
            Err(DescriptionError::NoUdn) => document_nodes(xml@) matches Ok(nodes) && first_named(
                nodes,
                "device"@,
            ) is Some && !has_device_udn(nodes),
            Err(DescriptionError::BadLocation) => document_nodes(xml@) matches Ok(nodes)
                && has_device_udn(nodes) && url_parts(location@) is None,
            Err(DescriptionError::NoHost) => document_nodes(xml@) matches Ok(nodes) && has_device_udn(
                nodes,
            ) && (url_parts(location@) matches Some(u) && u.host is None),
        },
{
    let nodes = match parse_document(xml) {
        Ok(n) => n,
        Err(e) => return Err(DescriptionError::Xml(e)),
    };
    let d = match device_of_nodes(&nodes) {
        Ok(d) => d,
        Err(e) => return Err(e),
    };
    assert(has_device_udn(nodes_view(nodes@)));
    let parts = parse_url(location);
    let (ip, port) = match address_from_parts(parts) {
        Ok(a) => a,
        Err(e) => return Err(e),
    };
    Ok(DescribedDevice { ip, port, ..d })
}

} // verus!
