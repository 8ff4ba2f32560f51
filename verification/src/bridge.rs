//! The event bridge: which events refresh the user interface, and when the
//! task that drains a stream stops.

use crate::event::{ContentStatus, Input, LiveEvent};
use vstd::prelude::*;

verus! {

/// The signal sent to the user interface. It carries no payload: whoever
/// receives it fetches the current state again.
#[derive(Clone, Copy, Debug, PartialEq, Eq, Structural)]
pub enum Notification {
    /// Everything shown may be stale.
    UpdateAll,
}

impl Notification {
    /// The name under which the signal is known to the user interface.
    pub open spec fn spec_name(self) -> Seq<char> {
        "update-all"@
    }

    /// The name under which the signal is sent.
    pub fn name(&self) -> (r: &'static str)
        ensures
            r@ == self.spec_name(),
    {
        "update-all"
    }
}

/// Where a task that drains a stream stands.
#[derive(Clone, Copy, Debug, PartialEq, Eq, Structural)]
pub enum BridgeState {
    /// The task is consuming events.
    Running,
    /// The stream yielded an error; the task has stopped.
    Faulted,
    /// The stream ended; the task has stopped.
    Ended,
    /// The task was cancelled.
    Cancelled,
}

impl BridgeState {
    /// Every state but `Running` is final.
    pub open spec fn terminal(self) -> bool {
        !(self is Running)
    }

    /// Whether the task has stopped for good.
    pub fn is_terminal(&self) -> (r: bool)
        ensures
            r == self.terminal(),
    {
        match self {
            BridgeState::Running => false,
            _ => true,
        }
    }
}

/// Whether an event stands for a change that the user interface must show.
///
/// A remote insert counts once its content is complete; until then the
/// `ContentReady` that follows announces it. Local inserts and finished
/// downloads always count. Peer and sync events, and events unknown to this
/// library, never do.
pub open spec fn notifies(event: LiveEvent) -> bool {
    match event {
        LiveEvent::InsertRemote { content_status, .. } => content_status == ContentStatus::Complete,
        LiveEvent::InsertLocal { .. } => true,
        LiveEvent::ContentReady { .. } => true,
        _ => false,
    }
}

/// The state that follows `state` on `input`. A stopped task stays as it is.
pub open spec fn next_state(state: BridgeState, input: Input) -> BridgeState {
    if state.terminal() {
        state
    } else {
        match input {
            Input::Event(_) => BridgeState::Running,
            Input::Fault => BridgeState::Faulted,
            Input::End => BridgeState::Ended,
            Input::Cancel => BridgeState::Cancelled,
        }
    }
}

/// Whether a task in `state` sends a notification on `input`.
pub open spec fn emits(state: BridgeState, input: Input) -> bool {
    !state.terminal() && match input {
        Input::Event(event) => notifies(event),
        _ => false,
    }
}

/// Decides whether `event` is announced to the user interface.
pub fn should_notify(event: &LiveEvent) -> (r: bool)
    ensures
        r == notifies(*event),
{
    match event {
        LiveEvent::InsertRemote { content_status, .. } => match content_status {
            ContentStatus::Complete => true,
            _ => false,
        },
        LiveEvent::InsertLocal { .. } => true,
        LiveEvent::ContentReady { .. } => true,
        LiveEvent::NeighborUp(_) => false,
        LiveEvent::NeighborDown(_) => false,
        LiveEvent::SyncFinished { .. } => false,
        _ => false,
    }
}

/// What one resumption of the task comes to.
#[derive(Clone, Copy, Debug)]
pub struct Step {
    /// The state in which the task goes on, or rests.
    pub next: BridgeState,
    /// The notification to send, if any.
    pub emit: Option<Notification>,
}

/// Advances a task in `state` by one `input`.
pub fn step(state: BridgeState, input: &Input) -> (r: Step)
    ensures
        r.next == next_state(state, *input),
        r.emit == (if emits(state, *input) {
            Some(Notification::UpdateAll)
        } else {
            None
        }),
{
    if state.is_terminal() {
        return Step { next: state, emit: None };
    }
    match input {
        Input::Event(event) => {
            if should_notify(event) {
                Step { next: BridgeState::Running, emit: Some(Notification::UpdateAll) }
            } else {
                Step { next: BridgeState::Running, emit: None }
            }
        },
        Input::Fault => Step { next: BridgeState::Faulted, emit: None },
        Input::End => Step { next: BridgeState::Ended, emit: None },
        Input::Cancel => Step { next: BridgeState::Cancelled, emit: None },
    }
}

/// The state of a task that started in `start` and was handed `inputs` in
/// order.
pub open spec fn state_after(start: BridgeState, inputs: Seq<Input>) -> BridgeState
    decreases inputs.len(),
{
    if inputs.len() == 0 {
        start
    } else {
        next_state(state_after(start, inputs.drop_last()), inputs.last())
    }
}

/// Whether a task that started in `start` sends a notification on the input
/// at position `i` of `inputs`.
pub open spec fn emits_at(start: BridgeState, inputs: Seq<Input>, i: int) -> bool {
    0 <= i < inputs.len() && emits(state_after(start, inputs.take(i)), inputs[i])
}

/// The positions in `inputs` on which a task that started in `start` sends a
/// notification, in the order in which it sends them.
pub open spec fn emissions(start: BridgeState, inputs: Seq<Input>) -> Seq<int>
    decreases inputs.len(),
{
    if inputs.len() == 0 {
        Seq::empty()
    } else if emits(state_after(start, inputs.drop_last()), inputs.last()) {
        emissions(start, inputs.drop_last()).push(inputs.len() - 1)
    } else {
        emissions(start, inputs.drop_last())
    }
}

/// A list of positions as mathematical integers.
pub open spec fn positions(v: Seq<usize>) -> Seq<int> {
    v.map_values(|p: usize| p as int)
}

/// Whether an event is a local insert or a finished download.
pub open spec fn is_local_change(event: LiveEvent) -> bool {
    event is InsertLocal || event is ContentReady
}

/// Whether an event only reports on peers: a neighbor that came or went, or
/// a finished synchronization round.
pub open spec fn is_peer_report(event: LiveEvent) -> bool {
    event is NeighborUp || event is NeighborDown || event is SyncFinished
}

/// Whether every input is an event: the stream neither fails nor ends, and
/// nobody cancels the task.
pub open spec fn all_events(inputs: Seq<Input>) -> bool {
    forall|i: int| 0 <= i < inputs.len() ==> (#[trigger] inputs[i]) is Event
}

/// A notification is sent on exactly the positions at which the task is still
/// running and meets an event that counts. Each such position is recorded
/// once, and the record follows the order of arrival.
pub proof fn lemma_emissions_follow_arrival(start: BridgeState, inputs: Seq<Input>)
    ensures
        forall|k: int|
            0 <= k < emissions(start, inputs).len() ==> 0 <= (#[trigger] emissions(
                start,
                inputs,
            )[k]) < inputs.len(),
        forall|j: int, k: int|
            0 <= j < k < emissions(start, inputs).len() ==> emissions(start, inputs)[j]
                < emissions(start, inputs)[k],
        forall|i: int|
            emissions(start, inputs).contains(i) <==> #[trigger] emits_at(start, inputs, i),
    decreases inputs.len(),
{
    let all = emissions(start, inputs);
    if inputs.len() == 0 {
        assert forall|i: int| all.contains(i) <==> #[trigger] emits_at(start, inputs, i) by {}
    } else {
        let before = inputs.drop_last();
        let last = inputs.len() - 1;
        let earlier = emissions(start, before);
        lemma_emissions_follow_arrival(start, before);
        assert(inputs.take(last) =~= before);
        assert forall|i: int| 0 <= i < last implies emits_at(start, inputs, i) == emits_at(
            start,
            before,
            i,
        ) by {
            assert(before.take(i) =~= inputs.take(i));
        }
        if emits(state_after(start, before), inputs.last()) {
            assert(all == earlier.push(last));
            assert forall|i: int| all.contains(i) <==> #[trigger] emits_at(start, inputs, i) by {
                if all.contains(i) {
                    let k = choose|k: int| 0 <= k < all.len() && all[k] == i;
                    if k < earlier.len() {
                        assert(earlier[k] == i);
                        assert(earlier.contains(i));
                        assert(emits_at(start, before, i));
                    }
                }
                if emits_at(start, inputs, i) {
                    if i < last {
                        assert(emits_at(start, before, i));
                        assert(earlier.contains(i));
                        let k = choose|k: int| 0 <= k < earlier.len() && earlier[k] == i;
                        assert(all[k] == i);
                    } else {
                        assert(all[earlier.len() as int] == i);
                    }
                }
            }
        } else {
            assert(all == earlier);
            assert forall|i: int| all.contains(i) <==> #[trigger] emits_at(start, inputs, i) by {
                if all.contains(i) {
                    assert(emits_at(start, before, i));
                }
                if emits_at(start, inputs, i) {
                    assert(i < last);
                    assert(emits_at(start, before, i));
                }
            }
        }
    }
}

/// A task that has stopped after the first `i` inputs stays in the state in
/// which it stopped and sends nothing more, whatever follows: after a fault,
/// the end of the stream or a cancellation no input is processed.
pub proof fn lemma_stopped_task_is_silent(start: BridgeState, inputs: Seq<Input>, i: int)
    requires
        0 <= i <= inputs.len(),
        state_after(start, inputs.take(i)).terminal(),
    ensures
        state_after(start, inputs) == state_after(start, inputs.take(i)),
        emissions(start, inputs) == emissions(start, inputs.take(i)),
        forall|j: int| i <= j ==> !emissions(start, inputs).contains(j),
    decreases inputs.len() - i,
{
    if i == inputs.len() {
        assert(inputs.take(i) =~= inputs);
    } else {
        let before = inputs.drop_last();
        assert(before.take(i) =~= inputs.take(i));
        lemma_stopped_task_is_silent(start, before, i);
    }
    lemma_emissions_follow_arrival(start, inputs.take(i));
    assert forall|j: int| i <= j implies !emissions(start, inputs).contains(j) by {
        if emissions(start, inputs.take(i)).contains(j) {
            assert(emits_at(start, inputs.take(i), j));
        }
    }
}

/// An input that is no event stops the task for good: once the stream has
/// failed or ended, or the task was cancelled, no notification is sent for
/// anything that arrives from then on.
pub proof fn lemma_nothing_after_stop(start: BridgeState, inputs: Seq<Input>, i: int)
    requires
        0 <= i < inputs.len(),
        !(inputs[i] is Event),
    ensures
        state_after(start, inputs).terminal(),
        state_after(start, inputs) == state_after(start, inputs.take(i + 1)),
        forall|j: int| i <= j ==> !emissions(start, inputs).contains(j),
{
    let upto = inputs.take(i + 1);
    assert(upto.drop_last() =~= inputs.take(i));
    assert(upto.last() == inputs[i]);
    lemma_stopped_task_is_silent(start, inputs, i + 1);
    lemma_emissions_follow_arrival(start, inputs);
    assert(!emits_at(start, inputs, i));
}

/// While the stream yields events and nothing else, the task keeps running.
pub proof fn lemma_events_keep_running(inputs: Seq<Input>)
    requires
        all_events(inputs),
    ensures
        state_after(BridgeState::Running, inputs) == BridgeState::Running,
    decreases inputs.len(),
{
    if inputs.len() > 0 {
        let before = inputs.drop_last();
        assert forall|i: int| 0 <= i < before.len() implies (#[trigger] before[i]) is Event by {
            assert(inputs[i] is Event);
        }
        lemma_events_keep_running(before);
        assert(inputs.last() == inputs[inputs.len() - 1]);
    }
}

/// On a stream of events, a running task sends one notification for each
/// event that counts and for no other, in the order in which they arrive. In
/// particular every local insert and every finished download is announced
/// exactly once.
pub proof fn lemma_changes_notify_in_order(inputs: Seq<Input>)
    requires
        all_events(inputs),
    ensures
        forall|i: int|
            0 <= i < inputs.len() ==> (emissions(BridgeState::Running, inputs).contains(i)
                <==> notifies(#[trigger] inputs[i]->Event_0)),
        forall|i: int|
            0 <= i < inputs.len() && is_local_change(#[trigger] inputs[i]->Event_0)
                ==> emissions(BridgeState::Running, inputs).contains(i),
        forall|j: int, k: int|
            0 <= j < k < emissions(BridgeState::Running, inputs).len() ==> emissions(
                BridgeState::Running,
                inputs,
            )[j] < emissions(BridgeState::Running, inputs)[k],
{
    let start = BridgeState::Running;
    lemma_emissions_follow_arrival(start, inputs);
    assert forall|i: int| 0 <= i < inputs.len() implies (emissions(start, inputs).contains(i)
        <==> notifies(#[trigger] inputs[i]->Event_0)) by {
        let prefix = inputs.take(i);
        assert forall|k: int| 0 <= k < prefix.len() implies (#[trigger] prefix[k]) is Event by {
            assert(inputs[k] is Event);
        }
        lemma_events_keep_running(prefix);
        assert(inputs[i] is Event);
        assert(emits_at(start, inputs, i) <==> notifies(inputs[i]->Event_0));
    }
}

/// How many of `inputs` are events that count.
pub open spec fn changes_in(inputs: Seq<Input>) -> nat
    decreases inputs.len(),
{
    if inputs.len() == 0 {
        0
    } else if inputs.last() is Event && notifies(inputs.last()->Event_0) {
        changes_in(inputs.drop_last()) + 1
    } else {
        changes_in(inputs.drop_last())
    }
}

/// On a stream of events a running task sends as many notifications as there
/// are events that count: one for each, none merged and none repeated.
pub proof fn lemma_one_notification_per_change(inputs: Seq<Input>)
    requires
        all_events(inputs),
    ensures
        emissions(BridgeState::Running, inputs).len() == changes_in(inputs),
    decreases inputs.len(),
{
    if inputs.len() > 0 {
        let before = inputs.drop_last();
        assert forall|i: int| 0 <= i < before.len() implies (#[trigger] before[i]) is Event by {
            assert(inputs[i] is Event);
        }
        lemma_one_notification_per_change(before);
        lemma_events_keep_running(before);
        assert(inputs.last() == inputs[inputs.len() - 1]);
    }
}

/// A remote insert whose content is not complete is not announced; the
/// finished download that follows it on the stream is.
pub proof fn lemma_incomplete_insert_waits_for_content(inputs: Seq<Input>, i: int, j: int)
    requires
        all_events(inputs),
        0 <= i < j < inputs.len(),
        inputs[i]->Event_0 is InsertRemote,
        inputs[i]->Event_0->content_status != ContentStatus::Complete,
        inputs[j]->Event_0 is ContentReady,
    ensures
        !emissions(BridgeState::Running, inputs).contains(i),
        emissions(BridgeState::Running, inputs).contains(j),
{
    lemma_changes_notify_in_order(inputs);
    assert(inputs[i] is Event);
    assert(inputs[j] is Event);
}

/// A neighbor that comes or goes and a finished synchronization round are
/// never announced, wherever they stand among the inputs and whatever state
/// the task started in.
pub proof fn lemma_peer_reports_are_silent(start: BridgeState, inputs: Seq<Input>, i: int)
    requires
        0 <= i < inputs.len(),
        inputs[i] is Event,
        is_peer_report(inputs[i]->Event_0),
    ensures
        !emissions(start, inputs).contains(i),
{
    lemma_emissions_follow_arrival(start, inputs);
    assert(!emits_at(start, inputs, i));
}

/// A stream that holds nothing but reports on peers raises no notification,
/// however many there are.
pub proof fn lemma_only_peer_reports(start: BridgeState, inputs: Seq<Input>)
    requires
        forall|i: int|
            0 <= i < inputs.len() ==> (#[trigger] inputs[i]) is Event && is_peer_report(
                inputs[i]->Event_0,
            ),
    ensures
        emissions(start, inputs).len() == 0,
    decreases inputs.len(),
{
    if inputs.len() > 0 {
        let before = inputs.drop_last();
        assert forall|i: int| 0 <= i < before.len() implies (#[trigger] before[i]) is Event
            && is_peer_report(before[i]->Event_0) by {
            assert(inputs[i] is Event);
        }
        lemma_only_peer_reports(start, before);
        assert(inputs.last() == inputs[inputs.len() - 1]);
    }
}

/// What a task did with a recorded run of inputs.
#[derive(Debug)]
pub struct Replay {
    /// The state in which the task was left.
    pub end: BridgeState,
    /// The position of each input on which a notification was sent, in the
    /// order of sending.
    pub emitted: Vec<usize>,
}

/// Runs a task that starts in `start` over `inputs`, as the loop that drains
/// a stream does, and records where it sends a notification. The task reads
/// no input after the one on which it stops.
pub fn replay(start: BridgeState, inputs: &Vec<Input>) -> (r: Replay)
    ensures
        r.end == state_after(start, inputs@),
        positions(r.emitted@) == emissions(start, inputs@),
{
    let mut state = start;
    let mut emitted: Vec<usize> = Vec::new();
    let mut i: usize = 0;
    while i < inputs.len() && !state.is_terminal()
        invariant
            i <= inputs.len(),
            state == state_after(start, inputs@.take(i as int)),
            positions(emitted@) == emissions(start, inputs@.take(i as int)),
        decreases inputs.len() - i,
    {
        let taken = step(state, &inputs[i]);
        proof {
            let upto = inputs@.take(i as int + 1);
            assert(upto.drop_last() =~= inputs@.take(i as int));
            assert(upto.last() == inputs@[i as int]);
        }
        if taken.emit.is_some() {
            let ghost before = emitted@;
            emitted.push(i);
            assert(positions(emitted@) =~= positions(before).push(i as int));
        }
        state = taken.next;
        i = i + 1;
    }
    proof {
        if i == inputs.len() {
            assert(inputs@.take(i as int) =~= inputs@);
        } else {
            lemma_stopped_task_is_silent(start, inputs@, i as int);
        }
    }
    Replay { end: state, emitted }
}

} // verus!
