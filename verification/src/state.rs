//! The process-wide slot that holds the active session.

use vstd::prelude::*;

verus! {

/// The handle of a task spawned on the tokio runtime. What is inside it is
/// the runtime's business: the library only keeps it and cancels through it.
#[verifier::external_type_specification]
#[verifier::external_body]
#[verifier::reject_recursive_types(T)]
pub struct ExJoinHandle<T>(tokio::task::JoinHandle<T>);

/// What awaiting a task's handle gives when the task was cancelled or has
/// panicked. The handle's type names it; the library never reads one.
#[verifier::external_type_specification]
#[verifier::external_body]
pub struct ExJoinError(tokio::task::JoinError);

/// The live subscription on a document could not be opened.
#[derive(Debug)]
pub struct SubscriptionError {
    /// What the replication provider reported.
    pub reason: String,
}

/// The active document together with the task that drains its live stream.
pub struct Session<D> {
    /// The handle of the active document.
    pub document: D,
    /// The task that consumes the document's events.
    pub task: tokio::task::JoinHandle<()>,
}

/// The state shared by everything that works on the active document: the
/// replication provider, and a slot with at most one session.
pub struct AppState<P, D> {
    /// The active session, if a document has been opened or joined.
    pub todos: Option<Session<D>>,
    /// The replication provider, fixed for the life of the process.
    pub iroh: P,
}

/// The slot after an installation. `spawned` holds the task that drains the
/// new document's stream, or the reason why its subscription failed; a
/// failure leaves the slot as it was.
pub open spec fn slot_after<D>(
    before: Option<Session<D>>,
    document: D,
    spawned: Result<tokio::task::JoinHandle<()>, SubscriptionError>,
) -> Option<Session<D>> {
    match spawned {
        Ok(task) => Some(Session { document, task }),
        Err(_) => before,
    }
}

/// The session that an installation retires: the one that was active, if the
/// new one takes its place.
pub open spec fn retired_by<D>(
    before: Option<Session<D>>,
    spawned: Result<tokio::task::JoinHandle<()>, SubscriptionError>,
) -> Option<Session<D>> {
    match spawned {
        Ok(_) => before,
        Err(_) => None,
    }
}

/// Asks the runtime to cancel a task, through `tokio::task::JoinHandle::abort`.
/// The call does not wait, and nothing is claimed here of when the task
/// stops, or whether it had finished before.
#[verifier::external_body]
fn abort_task(task: &tokio::task::JoinHandle<()>) {
    task.abort();
}

impl<P, D> AppState<P, D> {
    /// A state around `iroh` with no active session.
    pub fn new(iroh: P) -> (state: Self)
        ensures
            state.todos is None,
            state.iroh == iroh,
    {
        AppState { todos: None, iroh }
    }

    /// The replication provider.
    pub fn iroh(&self) -> (r: &P)
        ensures
            *r == self.iroh,
    {
        &self.iroh
    }

    /// Makes `todos` the active document. The caller has opened its live
    /// subscription and, if that worked, spawned the task that drains it:
    /// `spawned` is that task, or the failure.
    ///
    /// On a failure nothing changes and the failure is handed back. Otherwise
    /// the task of the session that was active is asked to stop, without
    /// waiting for it, the new session takes the slot, and the retired one
    /// is returned.
    pub fn init_todos(
        &mut self,
        todos: D,
        spawned: Result<tokio::task::JoinHandle<()>, SubscriptionError>,
    ) -> (r: Result<Option<Session<D>>, SubscriptionError>)
        ensures
            final(self).todos == slot_after(old(self).todos, todos, spawned),
            final(self).iroh == old(self).iroh,
            spawned is Err ==> *final(self) == *old(self),
            spawned is Ok ==> final(self).todos is Some,
            r == (match spawned {
                Ok(_) => Ok(retired_by(old(self).todos, spawned)),
                Err(e) => Err(e),
            }),
    {
        match spawned {
            Err(e) => Err(e),
            Ok(task) => {
                let retired = self.todos.take();
                if let Some(previous) = &retired {
                    abort_task(&previous.task);
                }
                self.todos = Some(Session { document: todos, task });
                Ok(retired)
            },
        }
    }
}

/// Of two installations in a row the second one wins: the slot holds the
/// second session and nothing else, and the first session is the one that
/// was retired, whatever was active before them.
pub proof fn lemma_latest_install_wins<D>(
    before: Option<Session<D>>,
    first: D,
    first_task: tokio::task::JoinHandle<()>,
    second: D,
    second_task: tokio::task::JoinHandle<()>,
)
    ensures
        slot_after(slot_after(before, first, Ok(first_task)), second, Ok(second_task)) == Some(
            Session { document: second, task: second_task },
        ),
        retired_by(slot_after(before, first, Ok(first_task)), Ok(second_task)) == Some(
            Session { document: first, task: first_task },
        ),
{
}

/// A failed installation changes nothing and retires nobody.
pub proof fn lemma_failed_install_keeps_session<D>(
    before: Option<Session<D>>,
    document: D,
    failure: SubscriptionError,
)
    ensures
        slot_after(before, document, Err(failure)) == before,
        retired_by(before, Err(failure)) == None::<Session<D>>,
{
}

/// One installation as the slot sees it: the document, and the task that
/// drains its stream or the reason why its subscription failed.
pub struct Attempt<D> {
    /// The document that is to become active.
    pub document: D,
    /// The spawned task, or the failure.
    pub spawned: Result<tokio::task::JoinHandle<()>, SubscriptionError>,
}

impl<D> Attempt<D> {
    /// The session that a successful attempt installs.
    pub open spec fn session(self) -> Session<D> {
        Session { document: self.document, task: self.spawned->Ok_0 }
    }
}

/// The slot after all of `attempts`, made in order on a slot that held
/// `before`.
pub open spec fn slot_after_all<D>(before: Option<Session<D>>, attempts: Seq<Attempt<D>>) -> Option<
    Session<D>,
>
    decreases attempts.len(),
{
    if attempts.len() == 0 {
        before
    } else {
        slot_after(
            slot_after_all(before, attempts.drop_last()),
            attempts.last().document,
            attempts.last().spawned,
        )
    }
}

/// The sessions that `attempts` retire, in the order in which their tasks
/// are asked to stop.
pub open spec fn retired_by_all<D>(before: Option<Session<D>>, attempts: Seq<Attempt<D>>) -> Seq<
    Session<D>,
>
    decreases attempts.len(),
{
    if attempts.len() == 0 {
        Seq::empty()
    } else {
        let earlier = retired_by_all(before, attempts.drop_last());
        match retired_by(slot_after_all(before, attempts.drop_last()), attempts.last().spawned) {
            Some(session) => earlier.push(session),
            None => earlier,
        }
    }
}

/// Whether `session` is the active one after `attempts`, or has been retired
/// by them.
pub open spec fn accounted_for<D>(
    before: Option<Session<D>>,
    attempts: Seq<Attempt<D>>,
    session: Session<D>,
) -> bool {
    slot_after_all(before, attempts) == Some(session) || retired_by_all(before, attempts).contains(
        session,
    )
}

/// No session is orphaned. After any run of installations, every session
/// that ever held the slot either holds it still or has been retired, and so
/// had its task asked to stop; the slot holds the session of the last
/// installation that succeeded, or what it held at first if none did.
pub proof fn lemma_no_orphaned_session<D>(before: Option<Session<D>>, attempts: Seq<Attempt<D>>)
    ensures
        before is Some ==> accounted_for(before, attempts, before->0),
        forall|i: int|
            0 <= i < attempts.len() && (#[trigger] attempts[i]).spawned is Ok ==> accounted_for(
                before,
                attempts,
                attempts[i].session(),
            ),
        (forall|i: int| 0 <= i < attempts.len() ==> (#[trigger] attempts[i]).spawned is Err)
            ==> slot_after_all(before, attempts) == before && retired_by_all(
            before,
            attempts,
        ).len() == 0,
        forall|i: int|
            #![trigger attempts[i]]
            0 <= i < attempts.len() && attempts[i].spawned is Ok && (forall|j: int|
                i < j < attempts.len() ==> (#[trigger] attempts[j]).spawned is Err)
                ==> slot_after_all(before, attempts) == Some(attempts[i].session()),
    decreases attempts.len(),
{
    if attempts.len() > 0 {
        let earlier = attempts.drop_last();
        let last = attempts.last();
        let held = slot_after_all(before, earlier);
        let gone = retired_by_all(before, earlier);
        lemma_no_orphaned_session(before, earlier);
        assert(last == attempts[attempts.len() - 1]);
        assert forall|i: int| 0 <= i < earlier.len() implies earlier[i] == attempts[i] by {}
        if last.spawned is Ok {
            if held is Some {
                assert(retired_by_all(before, attempts) == gone.push(held->0));
                assert(gone.push(held->0)[gone.len() as int] == held->0);
                assert forall|s: Session<D>| gone.contains(s) implies gone.push(held->0).contains(
                    s,
                ) by {
                    let k = choose|k: int| 0 <= k < gone.len() && gone[k] == s;
                    assert(gone.push(held->0)[k] == s);
                }
            }
            assert forall|i: int|
                0 <= i < attempts.len() && (#[trigger] attempts[i]).spawned is Ok implies accounted_for(
                before,
                attempts,
                attempts[i].session(),
            ) by {
                if i < earlier.len() {
                    assert(earlier[i].spawned is Ok);
                    assert(accounted_for(before, earlier, earlier[i].session()));
                }
            }
            assert forall|i: int|
                #![trigger attempts[i]]
                0 <= i < attempts.len() && attempts[i].spawned is Ok && (forall|j: int|
                    i < j < attempts.len() ==> (#[trigger] attempts[j]).spawned is Err)
                    implies slot_after_all(before, attempts) == Some(attempts[i].session()) by {
                if i < earlier.len() {
                    assert(attempts[attempts.len() - 1].spawned is Err);
                }
            }
        } else {
            assert(retired_by_all(before, attempts) == gone);
            assert forall|i: int|
                0 <= i < attempts.len() && (#[trigger] attempts[i]).spawned is Ok implies accounted_for(
                before,
                attempts,
                attempts[i].session(),
            ) by {
                assert(earlier[i].spawned is Ok);
                assert(accounted_for(before, earlier, earlier[i].session()));
            }
            assert forall|i: int|
                #![trigger attempts[i]]
                0 <= i < attempts.len() && attempts[i].spawned is Ok && (forall|j: int|
                    i < j < attempts.len() ==> (#[trigger] attempts[j]).spawned is Err)
                    implies slot_after_all(before, attempts) == Some(attempts[i].session()) by {
                assert(earlier[i].spawned is Ok);
                assert forall|j: int| i < j < earlier.len() implies (#[trigger] earlier[j]).spawned is Err by {
                    assert(attempts[j].spawned is Err);
                }
            }
            if forall|i: int| 0 <= i < attempts.len() ==> (#[trigger] attempts[i]).spawned is Err {
                assert forall|i: int| 0 <= i < earlier.len() implies (#[trigger] earlier[i]).spawned is Err by {
                    assert(attempts[i].spawned is Err);
                }
            }
        }
    }
}

} // verus!
