//! Queues, groups and the playback monitor.

use airwave::groups::{
    join_steps, DeviceAddress, JoinStep, current_groups, join_action, master_info, masters, record_group_created,
    record_group_dissolved, slaves_of, GroupMember, JoinAction,
};
use airwave::models::QueueTrackResponse;
use airwave::monitor::{
    format_hms, is_track_end, mark_initialized, parse_upnp_play_mode, prune_initialized,
    monitor_tick, queue_monitor_step, should_monitor, MonitorCandidate, QueueStep, TickPlan,
};
use airwave::queue::PlayQueue;

fn entry(id: &str) -> QueueTrackResponse {
    QueueTrackResponse {
        id: id.to_string(),
        title: format!("Title {id}"),
        artist: Some("Artist".to_string()),
        album: None,
        duration: None,
        stream_url: None,
    }
}

fn queue_of(ids: &[&str], start: usize) -> PlayQueue {
    let mut q = PlayQueue::new();
    q.set_tracks(ids.iter().map(|i| entry(i)).collect(), start);
    q
}

fn ids(q: &PlayQueue) -> Vec<String> {
    q.tracks().iter().map(|t| t.id.clone()).collect()
}

#[test]
fn new_queue_is_empty_and_off() {
    let q = PlayQueue::new();
    assert!(q.tracks().is_empty());
    assert_eq!(q.position(), 0);
    assert_eq!(q.shuffle_mode(), "off");
    assert_eq!(q.repeat_mode(), "off");
    assert!(q.current().is_none());
}

#[test]
fn advance_stops_at_the_end_without_repeat() {
    let mut q = queue_of(&["a", "b"], 0);
    assert_eq!(q.advance().map(|t| t.id.clone()), Some("b".to_string()));
    assert!(q.advance().is_none());
    assert_eq!(q.position(), 1);
}

#[test]
fn repeat_all_wraps_around() {
    let mut q = queue_of(&["a", "b", "c"], 2);
    q.set_repeat_mode("all".to_string());
    assert_eq!(q.advance().map(|t| t.id.clone()), Some("a".to_string()));
    assert_eq!(q.position(), 0);
}

#[test]
fn repeat_track_stays_put() {
    let mut q = queue_of(&["a", "b"], 0);
    q.set_repeat_mode("track".to_string());
    assert_eq!(q.advance().map(|t| t.id.clone()), Some("a".to_string()));
    assert_eq!(q.position(), 0);
}

#[test]
fn going_back_undoes_an_advance() {
    let mut q = queue_of(&["a", "b", "c"], 1);
    q.advance();
    assert_eq!(q.position(), 2);
    assert_eq!(q.go_back().map(|t| t.id.clone()), Some("b".to_string()));
    assert_eq!(q.position(), 1);
}

#[test]
fn going_back_from_the_start_wraps_only_with_repeat_all() {
    let mut q = queue_of(&["a", "b", "c"], 0);
    assert_eq!(q.go_back().map(|t| t.id.clone()), Some("a".to_string()));
    q.set_repeat_mode("all".to_string());
    assert_eq!(q.go_back().map(|t| t.id.clone()), Some("c".to_string()));
}

#[test]
fn moving_a_track_keeps_the_current_one() {
    let mut q = queue_of(&["a", "b", "c", "d"], 1);
    assert!(q.move_track(0, 3));
    assert_eq!(ids(&q), vec!["b", "c", "d", "a"]);
    assert_eq!(q.current().map(|t| t.id.clone()), Some("b".to_string()));
    assert!(q.move_track(3, 0));
    assert_eq!(ids(&q), vec!["a", "b", "c", "d"]);
    assert_eq!(q.position(), 1);
    assert!(!q.move_track(1, 1));
    assert!(!q.move_track(0, 9));
}

#[test]
fn removing_a_track_before_the_current_one_shifts_the_position() {
    let mut q = queue_of(&["a", "b", "c"], 2);
    assert!(q.remove_track(0));
    assert_eq!(q.position(), 1);
    assert_eq!(q.current().map(|t| t.id.clone()), Some("c".to_string()));
    assert!(!q.remove_track(5));
    assert!(q.remove_track(1));
    assert_eq!(q.position(), 0);
}

#[test]
fn adding_next_inserts_after_the_current_track() {
    let mut q = queue_of(&["a", "b", "c"], 0);
    q.add_tracks(vec![entry("x"), entry("y")], "next");
    assert_eq!(ids(&q), vec!["a", "x", "y", "b", "c"]);
    q.add_tracks(vec![entry("z")], "end");
    assert_eq!(ids(&q), vec!["a", "x", "y", "b", "c", "z"]);
    assert_eq!(q.current().map(|t| t.id.clone()), Some("a".to_string()));
}

#[test]
fn shuffle_keeps_the_tracks() {
    let mut q = queue_of(&["a", "b", "c", "d"], 2);
    q.set_shuffle_mode("on".to_string());
    assert_eq!(q.shuffle_mode(), "on");
    assert_eq!(ids(&q), vec!["a", "b", "c", "d"]);
    assert_eq!(q.current().map(|t| t.id.clone()), Some("c".to_string()));
    q.clear();
    assert!(q.tracks().is_empty());
    assert_eq!(q.position(), 0);
}

fn member(id: &str, group: Option<&str>, master: bool) -> GroupMember {
    GroupMember { id: id.to_string(), group_id: group.map(|g| g.to_string()), is_master: master }
}

#[test]
fn creating_then_dissolving_a_group_restores_the_members() {
    let mut ms = vec![member("m", None, false), member("s1", None, false), member("s2", None, false)];
    record_group_created(&mut ms, "m", &vec!["s1".to_string(), "s2".to_string()]);
    assert!(ms[0].is_master);
    assert_eq!(ms[0].group_id.as_deref(), Some("m"));
    assert_eq!(ms[1].group_id.as_deref(), Some("m"));
    assert_eq!(slaves_of(&ms, "m"), vec!["s1".to_string(), "s2".to_string()]);
    assert_eq!(masters(&ms), vec!["m".to_string()]);
    let groups = current_groups(&ms);
    assert_eq!(groups.len(), 1);
    assert_eq!(groups[0].master_id, "m");
    assert_eq!(groups[0].slave_ids, vec!["s1".to_string(), "s2".to_string()]);
    record_group_dissolved(&mut ms, "m");
    for m in &ms {
        assert_eq!(m.group_id, None);
        assert!(!m.is_master);
    }
}

#[test]
fn masters_without_followers_form_no_group() {
    let ms = vec![member("m", Some("m"), true), member("x", None, false)];
    assert!(current_groups(&ms).is_empty());
}

#[test]
fn joins_go_over_https_or_soap() {
    assert_eq!(master_info("10.0.0.2", 49152), "10.0.0.2:49152");
    match join_action(true, "10.0.0.2", 49152) {
        JoinAction::Https(c) => assert_eq!(c, "ConnectMasterAp:JoinGroupMaster:eth10.0.0.2:wifi10.0.0.2"),
        _ => panic!("expected an HTTPS join"),
    }
    match join_action(false, "10.0.0.2", 49152) {
        JoinAction::Soap(i) => assert_eq!(i, "10.0.0.2:49152"),
        _ => panic!("expected a SOAP join"),
    }
}

#[test]
fn play_modes_map_to_shuffle_and_repeat() {
    assert_eq!(parse_upnp_play_mode("NORMAL"), ("off", "off"));
    assert_eq!(parse_upnp_play_mode("REPEAT_ONE"), ("off", "track"));
    assert_eq!(parse_upnp_play_mode("REPEAT_ALL"), ("off", "all"));
    assert_eq!(parse_upnp_play_mode("SHUFFLE_REPEAT_ALL"), ("on", "all"));
    assert_eq!(parse_upnp_play_mode("whatever"), ("off", "off"));
}

#[test]
fn hms_is_zero_padded() {
    assert_eq!(format_hms(0), "00:00:00");
    assert_eq!(format_hms(3725), "01:02:05");
    assert_eq!(format_hms(360000), "100:00:00");
}

#[test]
fn track_end_is_a_stop_after_playing() {
    assert!(is_track_end("PLAYING", "STOPPED"));
    assert!(is_track_end("TRANSITIONING", "NO_MEDIA_PRESENT"));
    assert!(!is_track_end("PAUSED_PLAYBACK", "STOPPED"));
    assert!(!is_track_end("PLAYING", "PLAYING"));
    assert!(should_monitor(true, false, false));
    assert!(should_monitor(true, true, true));
    assert!(!should_monitor(true, true, false));
    assert!(!should_monitor(false, false, false));
}

#[test]
fn monitor_advances_the_queue_when_a_track_ends() {
    let mut q = queue_of(&["t1", "t2"], 0);
    let mut last = vstd::hash_map::StringHashMap::<String>::new();
    match queue_monitor_step(&mut q, &mut last, "dev", "PLAYING", "http://h:1") {
        QueueStep::Idle => {}
        other => panic!("expected Idle, got {other:?}"),
    }
    match queue_monitor_step(&mut q, &mut last, "dev", "STOPPED", "http://h:1") {
        QueueStep::Play { url, track } => {
            assert_eq!(url, "http://h:1/media/t2");
            assert_eq!(track.id, "t2");
        }
        other => panic!("expected Play, got {other:?}"),
    }
    queue_monitor_step(&mut q, &mut last, "dev", "PLAYING", "http://h:1");
    match queue_monitor_step(&mut q, &mut last, "dev", "STOPPED", "http://h:1") {
        QueueStep::Ended => {}
        other => panic!("expected Ended, got {other:?}"),
    }
    let mut empty = PlayQueue::new();
    match queue_monitor_step(&mut empty, &mut last, "other", "STOPPED", "http://h:1") {
        QueueStep::Skip => {}
        other => panic!("expected Skip, got {other:?}"),
    }
}

#[test]
fn devices_are_initialized_once_until_they_leave() {
    let mut init: Vec<String> = Vec::new();
    assert!(mark_initialized(&mut init, "a"));
    assert!(!mark_initialized(&mut init, "a"));
    assert!(mark_initialized(&mut init, "b"));
    prune_initialized(&mut init, &vec!["b".to_string()]);
    assert_eq!(init, vec!["b".to_string()]);
    assert!(mark_initialized(&mut init, "a"));
}

#[test]
fn join_steps_follow_each_device_and_stop_at_unknown_ones() {
    let devices = vec![
        DeviceAddress { id: "m".to_string(), ip: "10.0.0.1".to_string(), port: 49152, https: true },
        DeviceAddress { id: "a".to_string(), ip: "10.0.0.2".to_string(), port: 49152, https: true },
        DeviceAddress { id: "b".to_string(), ip: "10.0.0.3".to_string(), port: 49152, https: false },
    ];
    let steps = join_steps(&devices, &devices[0], &vec!["a".to_string(), "b".to_string(), "zz".to_string()]);
    assert_eq!(steps.len(), 3);
    match &steps[0] {
        JoinStep::Join { slave_id, action: JoinAction::Https(c) } => {
            assert_eq!(slave_id, "a");
            assert_eq!(c, "ConnectMasterAp:JoinGroupMaster:eth10.0.0.1:wifi10.0.0.1");
        }
        other => panic!("unexpected {other:?}"),
    }
    match &steps[1] {
        JoinStep::Join { slave_id, action: JoinAction::Soap(i) } => {
            assert_eq!(slave_id, "b");
            assert_eq!(i, "10.0.0.1:49152");
        }
        other => panic!("unexpected {other:?}"),
    }
    match &steps[2] {
        JoinStep::MissingSlave(id) => assert_eq!(id, "zz"),
        other => panic!("unexpected {other:?}"),
    }
}

fn candidate(id: &str, av: bool, in_group: bool, master: bool) -> MonitorCandidate {
    MonitorCandidate { id: id.to_string(), av_transport: av, in_group, is_master: master }
}

#[test]
fn monitor_reads_settings_once_while_a_device_stays() {
    let mut noted: Vec<String> = vec!["gone".to_string()];
    let devices = vec![
        candidate("a", true, false, false),
        candidate("b", true, true, false),
        candidate("c", false, false, false),
        candidate("d", true, true, true),
    ];
    let plans = monitor_tick(&devices, &mut noted);
    assert_eq!(
        plans,
        vec![TickPlan::Poll { first: true }, TickPlan::Skip, TickPlan::Skip, TickPlan::Poll { first: true }]
    );
    assert!(!noted.contains(&"gone".to_string()));
    let plans = monitor_tick(&devices, &mut noted);
    assert_eq!(
        plans,
        vec![TickPlan::Poll { first: false }, TickPlan::Skip, TickPlan::Skip, TickPlan::Poll { first: false }]
    );
    // "a" leaves and comes back: its settings are read again.
    let only_d = vec![candidate("d", true, true, true)];
    assert_eq!(monitor_tick(&only_d, &mut noted), vec![TickPlan::Poll { first: false }]);
    assert_eq!(monitor_tick(&devices, &mut noted)[0], TickPlan::Poll { first: true });
}
