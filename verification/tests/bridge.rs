use live_session::bridge::{replay, should_notify, step, BridgeState, Notification};
use live_session::event::{ContentStatus, Input, LiveEvent};

const A: [u8; 32] = [0xa1; 32];
const B: [u8; 32] = [0xb2; 32];
const P: [u8; 32] = [0x70; 32];

fn local(hash: [u8; 32]) -> LiveEvent {
    LiveEvent::InsertLocal { content_hash: hash }
}

fn remote(hash: [u8; 32], status: ContentStatus) -> LiveEvent {
    LiveEvent::InsertRemote { from: P, content_hash: hash, content_status: status }
}

fn ready(hash: [u8; 32]) -> LiveEvent {
    LiveEvent::ContentReady { hash }
}

fn sync_done(ok: bool) -> LiveEvent {
    LiveEvent::SyncFinished { peer: P, succeeded: ok }
}

fn events(list: Vec<LiveEvent>) -> Vec<Input> {
    list.into_iter().map(Input::Event).collect()
}

fn names(emitted: &[usize]) -> Vec<&'static str> {
    emitted.iter().map(|_| Notification::UpdateAll.name()).collect()
}

#[test]
fn signal_is_called_update_all() {
    assert_eq!(Notification::UpdateAll.name(), "update-all");
}

#[test]
fn complete_remote_insert_notifies() {
    assert!(should_notify(&remote(A, ContentStatus::Complete)));
}

#[test]
fn incomplete_remote_insert_does_not_notify() {
    assert!(!should_notify(&remote(A, ContentStatus::Incomplete)));
}

#[test]
fn missing_remote_insert_does_not_notify() {
    assert!(!should_notify(&remote(A, ContentStatus::Missing)));
}

#[test]
fn local_insert_notifies() {
    assert!(should_notify(&local(A)));
}

#[test]
fn content_ready_notifies() {
    assert!(should_notify(&ready(B)));
}

#[test]
fn neighbor_events_do_not_notify() {
    assert!(!should_notify(&LiveEvent::NeighborUp(P)));
    assert!(!should_notify(&LiveEvent::NeighborDown(P)));
}

#[test]
fn sync_finished_does_not_notify() {
    assert!(!should_notify(&sync_done(true)));
    assert!(!should_notify(&sync_done(false)));
}

#[test]
fn unknown_event_does_not_notify() {
    assert!(!should_notify(&LiveEvent::Other));
}

#[test]
fn only_running_is_not_terminal() {
    assert!(!BridgeState::Running.is_terminal());
    assert!(BridgeState::Faulted.is_terminal());
    assert!(BridgeState::Ended.is_terminal());
    assert!(BridgeState::Cancelled.is_terminal());
}

#[test]
fn step_on_counting_event_emits_and_keeps_running() {
    let taken = step(BridgeState::Running, &Input::Event(local(A)));
    assert_eq!(taken.next, BridgeState::Running);
    assert_eq!(taken.emit, Some(Notification::UpdateAll));
}

#[test]
fn step_on_silent_event_keeps_running_without_emitting() {
    let taken = step(BridgeState::Running, &Input::Event(LiveEvent::NeighborUp(P)));
    assert_eq!(taken.next, BridgeState::Running);
    assert_eq!(taken.emit, None);
}

#[test]
fn step_on_fault_stops_with_fault() {
    let taken = step(BridgeState::Running, &Input::Fault);
    assert_eq!(taken.next, BridgeState::Faulted);
    assert_eq!(taken.emit, None);
}

#[test]
fn step_on_end_stops_normally() {
    let taken = step(BridgeState::Running, &Input::End);
    assert_eq!(taken.next, BridgeState::Ended);
    assert_eq!(taken.emit, None);
}

#[test]
fn step_on_cancel_stops_as_cancelled() {
    let taken = step(BridgeState::Running, &Input::Cancel);
    assert_eq!(taken.next, BridgeState::Cancelled);
    assert_eq!(taken.emit, None);
}

#[test]
fn stopped_task_ignores_every_input() {
    let stopped = [BridgeState::Faulted, BridgeState::Ended, BridgeState::Cancelled];
    let inputs = [Input::Event(local(A)), Input::Fault, Input::End, Input::Cancel];
    for state in stopped {
        for input in inputs.iter() {
            let taken = step(state, input);
            assert_eq!(taken.next, state);
            assert_eq!(taken.emit, None);
        }
    }
}

#[test]
fn replay_of_nothing_changes_nothing() {
    let run = replay(BridgeState::Running, &Vec::new());
    assert_eq!(run.end, BridgeState::Running);
    assert!(run.emitted.is_empty());
}

#[test]
fn mixed_stream_notifies_for_local_insert_and_content_ready_only() {
    let inputs = events(vec![
        local(A),
        remote(B, ContentStatus::Incomplete),
        ready(B),
        LiveEvent::NeighborUp(P),
    ]);
    let run = replay(BridgeState::Running, &inputs);
    assert_eq!(run.emitted, vec![0, 2]);
    assert_eq!(names(&run.emitted), vec!["update-all", "update-all"]);
    assert_eq!(run.end, BridgeState::Running);
}

#[test]
fn one_event_then_error_gives_one_notification() {
    let inputs = vec![
        Input::Event(local(A)),
        Input::Fault,
        Input::Event(local(B)),
        Input::Event(ready(B)),
    ];
    let run = replay(BridgeState::Running, &inputs);
    assert_eq!(run.emitted, vec![0]);
    assert_eq!(run.end, BridgeState::Faulted);
}

#[test]
fn silent_event_then_error_gives_no_notification() {
    let inputs = vec![Input::Event(LiveEvent::NeighborDown(P)), Input::Fault];
    let run = replay(BridgeState::Running, &inputs);
    assert!(run.emitted.is_empty());
    assert_eq!(run.end, BridgeState::Faulted);
}

#[test]
fn every_local_change_notifies_once_in_order() {
    let inputs = events(vec![
        local(A),
        ready(A),
        LiveEvent::Other,
        local(B),
        local(B),
        sync_done(true),
        ready(B),
        remote(A, ContentStatus::Complete),
    ]);
    let run = replay(BridgeState::Running, &inputs);
    assert_eq!(run.emitted, vec![0, 1, 3, 4, 6, 7]);
    assert_eq!(run.end, BridgeState::Running);
}

#[test]
fn incomplete_insert_is_announced_by_content_ready() {
    let inputs = events(vec![remote(B, ContentStatus::Incomplete), ready(B)]);
    let run = replay(BridgeState::Running, &inputs);
    assert_eq!(run.emitted, vec![1]);
}

#[test]
fn missing_content_insert_alone_is_silent() {
    let inputs = events(vec![remote(B, ContentStatus::Missing)]);
    let run = replay(BridgeState::Running, &inputs);
    assert!(run.emitted.is_empty());
}

#[test]
fn peer_and_sync_events_never_notify() {
    let mut list = Vec::new();
    for round in 0..50 {
        list.push(LiveEvent::NeighborUp(P));
        list.push(sync_done(round % 2 == 0));
        list.push(LiveEvent::NeighborDown(P));
    }
    let run = replay(BridgeState::Running, &events(list));
    assert!(run.emitted.is_empty());
    assert_eq!(run.end, BridgeState::Running);
}

#[test]
fn end_of_stream_stops_the_task() {
    let inputs = vec![Input::Event(ready(A)), Input::End, Input::Event(local(A))];
    let run = replay(BridgeState::Running, &inputs);
    assert_eq!(run.emitted, vec![0]);
    assert_eq!(run.end, BridgeState::Ended);
}

#[test]
fn nothing_is_processed_after_cancellation() {
    let inputs = vec![
        Input::Event(local(A)),
        Input::Cancel,
        Input::Event(local(B)),
        Input::Fault,
        Input::End,
    ];
    let run = replay(BridgeState::Running, &inputs);
    assert_eq!(run.emitted, vec![0]);
    assert_eq!(run.end, BridgeState::Cancelled);
}

#[test]
fn replay_from_a_stopped_task_emits_nothing() {
    let inputs = events(vec![local(A), ready(B)]);
    for state in [BridgeState::Faulted, BridgeState::Ended, BridgeState::Cancelled] {
        let run = replay(state, &inputs);
        assert!(run.emitted.is_empty());
        assert_eq!(run.end, state);
    }
}

#[test]
fn replay_agrees_with_single_steps() {
    let inputs = vec![
        Input::Event(remote(A, ContentStatus::Complete)),
        Input::Event(LiveEvent::Other),
        Input::Event(ready(B)),
        Input::End,
        Input::Event(local(A)),
    ];
    let mut state = BridgeState::Running;
    let mut emitted = Vec::new();
    for (at, input) in inputs.iter().enumerate() {
        let taken = step(state, input);
        if taken.emit.is_some() {
            emitted.push(at);
        }
        state = taken.next;
    }
    let run = replay(BridgeState::Running, &inputs);
    assert_eq!(run.emitted, emitted);
    assert_eq!(run.end, state);
}

#[test]
fn as_many_notifications_as_counting_events() {
    let list = vec![
        local(A),
        remote(A, ContentStatus::Complete),
        remote(B, ContentStatus::Incomplete),
        remote(B, ContentStatus::Missing),
        ready(B),
        LiveEvent::NeighborUp(P),
        LiveEvent::Other,
        local(B),
    ];
    let counting = list.iter().filter(|event| should_notify(event)).count();
    let run = replay(BridgeState::Running, &events(list));
    assert_eq!(counting, 4);
    assert_eq!(run.emitted.len(), counting);
    assert_eq!(run.emitted, vec![0, 1, 4, 7]);
}
