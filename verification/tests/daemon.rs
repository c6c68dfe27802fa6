use lucky_daemon::cli::CliDoc;
use lucky_daemon::daemon::LuckyDaemon;
use lucky_daemon::hook::{HookCall, HookEvent, HookPhase};
use lucky_daemon::rpc::{reply_to_publish, HookReply, Reply};
use lucky_daemon::status::{ScriptState, ScriptStatus};
use std::sync::atomic::{AtomicBool, Ordering};
use std::sync::Arc;

fn status(state: ScriptState, message: Option<&str>) -> ScriptStatus {
    ScriptStatus::new(state, message.map(|m| m.to_string()))
}

fn daemon() -> (LuckyDaemon, Arc<AtomicBool>) {
    let flag = Arc::new(AtomicBool::new(false));
    (LuckyDaemon::new(flag.clone()), flag)
}

fn texts(replies: &Vec<HookReply>) -> Vec<(Option<String>, bool, bool)> {
    replies.iter().map(|r| (r.message(), r.continues(), r.is_error())).collect()
}

#[test]
fn blocked_disk_check_decides_the_aggregate() {
    let (mut d, _) = daemon();
    d.set_status("db-check".to_string(), status(ScriptState::Active, None));
    let juju =
        d.set_status("disk-check".to_string(), status(ScriptState::Blocked, Some("disk 95% full")));
    assert_eq!(juju, status(ScriptState::Blocked, Some("disk 95% full")));
    assert_eq!(d.get_juju_status(), status(ScriptState::Blocked, Some("disk 95% full")));
}

#[test]
fn overwritten_report_leaves_the_aggregate() {
    let (mut d, _) = daemon();
    d.set_status("a".to_string(), status(ScriptState::Waiting, Some("waiting on peer")));
    d.set_status("b".to_string(), status(ScriptState::Error, Some("config invalid")));
    let juju = d.set_status("a".to_string(), status(ScriptState::Active, None));
    assert_eq!(juju, status(ScriptState::Error, Some("config invalid")));
    assert_eq!(d.get_juju_status(), juju);
}

#[test]
fn daemon_without_reports_aggregates_to_minimum() {
    let (d, flag) = daemon();
    assert_eq!(d.get_juju_status(), status(ScriptState::Active, None));
    assert!(d.snapshot().is_empty());
    assert!(!d.is_stopping());
    assert!(!flag.load(Ordering::SeqCst));
}

#[test]
fn failed_publish_is_an_os_error_and_the_report_stays() {
    let (mut d, _) = daemon();
    let juju = d.set_status("db-check".to_string(), status(ScriptState::Blocked, Some("down")));
    assert_eq!(juju, status(ScriptState::Blocked, Some("down")));
    let reply = reply_to_publish(Err("status-set: connection refused".to_string()));
    assert!(reply.is_error());
    match reply {
        Reply::OsError(cause) => assert_eq!(cause, "status-set: connection refused"),
        Reply::Empty => panic!("a failed publish must not be answered with success"),
    }
    assert_eq!(
        d.snapshot(),
        vec![("db-check".to_string(), status(ScriptState::Blocked, Some("down")))]
    );
    let next = d.set_status("other".to_string(), status(ScriptState::Active, None));
    assert_eq!(next, status(ScriptState::Blocked, Some("down")));
}

#[test]
fn successful_publish_is_answered_with_an_empty_reply() {
    let reply = reply_to_publish(Ok(()));
    assert!(!reply.is_error());
    assert!(matches!(reply, Reply::Empty));
}

#[test]
fn failed_context_gives_one_error_and_ends_the_stream() {
    let (d, _) = daemon();
    let replies = d.trigger_hook("install".to_string(), Err("no charm directory".to_string()));
    assert_eq!(texts(&replies), vec![(Some("no charm directory".to_string()), false, true)]);
    assert!(replies.iter().all(|r| !r.continues()));
}

#[test]
fn hook_output_is_relayed_and_closed_by_an_empty_reply() {
    let (d, _) = daemon();
    let replies = d.trigger_hook(
        "install".to_string(),
        Ok(vec!["Hello fello!".to_string(), "Goodbye dude!".to_string()]),
    );
    assert_eq!(
        texts(&replies),
        vec![
            (Some("Hello fello!".to_string()), true, false),
            (Some("Goodbye dude!".to_string()), true, false),
            (None, false, false),
        ]
    );
}

#[test]
fn hook_without_output_gets_the_closing_reply_alone() {
    let (d, _) = daemon();
    let replies = d.trigger_hook("update-status".to_string(), Ok(Vec::new()));
    assert_eq!(texts(&replies), vec![(None, false, false)]);
}

#[test]
fn stop_twice_succeeds_twice() {
    let (mut d, flag) = daemon();
    let first = d.stop_daemon();
    assert!(!first.is_error());
    assert!(flag.load(Ordering::SeqCst));
    assert!(d.is_stopping());
    let second = d.stop_daemon();
    assert!(!second.is_error());
    assert!(flag.load(Ordering::SeqCst));
    assert!(d.is_stopping());
}

#[test]
fn stop_keeps_the_reports() {
    let (mut d, _) = daemon();
    d.set_status("a".to_string(), status(ScriptState::Waiting, Some("peer")));
    d.stop_daemon();
    assert_eq!(d.get_juju_status(), status(ScriptState::Waiting, Some("peer")));
    let juju = d.set_status("b".to_string(), status(ScriptState::Error, Some("late")));
    assert_eq!(juju, status(ScriptState::Error, Some("peer, late")));
    assert!(d.is_stopping());
}

#[test]
fn same_report_twice_leaves_the_aggregate() {
    let (mut d, _) = daemon();
    d.set_status("a".to_string(), status(ScriptState::Maintenance, Some("upgrading")));
    let once = d.set_status("b".to_string(), status(ScriptState::Waiting, Some("peer")));
    let snapshot = d.snapshot();
    let twice = d.set_status("b".to_string(), status(ScriptState::Waiting, Some("peer")));
    assert_eq!(once, twice);
    assert_eq!(twice, status(ScriptState::Waiting, Some("upgrading, peer")));
    assert_eq!(d.snapshot(), snapshot);
}

#[test]
fn more_severe_report_does_not_lower_the_aggregate() {
    let order = [
        ScriptState::Active,
        ScriptState::Maintenance,
        ScriptState::Waiting,
        ScriptState::Blocked,
        ScriptState::Error,
    ];
    for other in order.iter() {
        for from in 0..order.len() {
            for to in from + 1..order.len() {
                let (mut d, _) = daemon();
                d.set_status("other".to_string(), status(*other, None));
                let before = d.set_status("a".to_string(), status(order[from], None));
                let after = d.set_status("a".to_string(), status(order[to], None));
                assert!(after.state >= before.state);
                assert!(after.state >= order[to]);
                let expected = if *other > order[to] { *other } else { order[to] };
                assert_eq!(after.state, expected);
            }
        }
    }
}

#[test]
fn aggregate_message_does_not_depend_on_the_order_of_the_reports() {
    let (mut first, _) = daemon();
    first.set_status("b".to_string(), status(ScriptState::Error, Some("config invalid")));
    first.set_status("a".to_string(), status(ScriptState::Waiting, Some("waiting on peer")));
    first.set_status("c".to_string(), status(ScriptState::Active, Some("ready")));
    let (mut second, _) = daemon();
    second.set_status("c".to_string(), status(ScriptState::Active, Some("ready")));
    second.set_status("a".to_string(), status(ScriptState::Waiting, Some("waiting on peer")));
    second.set_status("b".to_string(), status(ScriptState::Error, Some("config invalid")));
    let expected = status(ScriptState::Error, Some("waiting on peer, config invalid, ready"));
    assert_eq!(first.get_juju_status(), expected);
    assert_eq!(second.get_juju_status(), expected);
    assert_eq!(first.get_juju_status(), first.get_juju_status());
}

#[test]
fn many_reporters_are_all_in_the_snapshot() {
    let (mut d, _) = daemon();
    let n: usize = 32;
    for i in 0..n {
        let id = format!("unit-{:02}", (i * 7) % n);
        d.set_status(id, status(ScriptState::Active, None));
    }
    let snapshot = d.snapshot();
    assert_eq!(snapshot.len(), n);
    for i in 0..n {
        assert_eq!(snapshot[i].0, format!("unit-{:02}", i));
    }
}

#[test]
fn hook_call_walks_through_its_phases() {
    let mut call = HookCall::new("install".to_string());
    assert_eq!(call.hook_name(), "install");
    assert_eq!(call.phase(), HookPhase::Pending);
    assert!(call.on_event(HookEvent::ContextResolved).is_none());
    assert_eq!(call.phase(), HookPhase::Streaming);
    let reply = call.on_event(HookEvent::Output("step 1".to_string())).unwrap();
    assert!(reply.continues());
    assert_eq!(reply.message(), Some("step 1".to_string()));
    assert_eq!(call.phase(), HookPhase::Streaming);
    let last = call.on_event(HookEvent::Finished).unwrap();
    assert!(!last.continues());
    assert!(!last.is_error());
    assert_eq!(last.message(), None);
    assert_eq!(call.phase(), HookPhase::Closed);
}

#[test]
fn closed_hook_call_sends_nothing_more() {
    let mut call = HookCall::new("install".to_string());
    let reply = call.on_event(HookEvent::ContextFailed("no charm directory".to_string())).unwrap();
    assert!(reply.is_error());
    assert!(!reply.continues());
    assert_eq!(reply.message(), Some("no charm directory".to_string()));
    assert_eq!(call.phase(), HookPhase::Closed);
    assert!(call.on_event(HookEvent::ContextResolved).is_none());
    assert!(call.on_event(HookEvent::Output("late".to_string())).is_none());
    assert!(call.on_event(HookEvent::Finished).is_none());
    assert!(call.on_event(HookEvent::ContextFailed("again".to_string())).is_none());
    assert!(call.on_event(HookEvent::Disconnected).is_none());
    assert_eq!(call.phase(), HookPhase::Closed);
}

#[test]
fn pending_hook_call_ignores_output() {
    let mut call = HookCall::new("install".to_string());
    assert!(call.on_event(HookEvent::Output("early".to_string())).is_none());
    assert!(call.on_event(HookEvent::Finished).is_none());
    assert_eq!(call.phase(), HookPhase::Pending);
}

#[test]
fn streaming_hook_call_ignores_context_events() {
    let mut call = HookCall::new("install".to_string());
    call.on_event(HookEvent::ContextResolved);
    assert!(call.on_event(HookEvent::ContextResolved).is_none());
    assert!(call.on_event(HookEvent::ContextFailed("late".to_string())).is_none());
    assert_eq!(call.phase(), HookPhase::Streaming);
}

#[test]
fn disconnect_closes_the_call_without_a_reply() {
    let mut streaming = HookCall::new("install".to_string());
    streaming.on_event(HookEvent::ContextResolved);
    streaming.on_event(HookEvent::Output("step 1".to_string()));
    assert!(streaming.on_event(HookEvent::Disconnected).is_none());
    assert_eq!(streaming.phase(), HookPhase::Closed);
    assert!(streaming.on_event(HookEvent::Output("step 2".to_string())).is_none());
    assert!(streaming.on_event(HookEvent::Finished).is_none());

    let mut pending = HookCall::new("install".to_string());
    assert!(pending.on_event(HookEvent::Disconnected).is_none());
    assert_eq!(pending.phase(), HookPhase::Closed);
}

#[test]
fn doc_page_carries_name_and_content() {
    let doc = CliDoc { name: "lucky_daemon", content: "# Daemon\n\n{{help_message}}" };
    assert_eq!(doc.name, "lucky_daemon");
    assert!(doc.content.contains("{{help_message}}"));
}
