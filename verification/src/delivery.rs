use crate::laws::lemma_commit;
use crate::records::AssetBatchView;
use crate::registry::{lemma_close, lemma_drop, lemma_notify, lemma_register, lemma_take};
use crate::service::ServiceState;
use vstd::prelude::*;

verus! {

/// One thing that happens to the service.
pub enum ServiceStep {
    /// The writer commits a batch.
    Commit(AssetBatchView),
    /// A listener registers.
    Register,
    /// The delivery loop of a listener looks into its queue.
    Deliver(u64),
    /// A listener is dropped.
    Drop(u64),
    /// The broadcaster is torn down.
    Shutdown,
}

impl ServiceStep {
    /// Whether the step takes an event from this listener's queue or drops
    /// the listener.
    pub open spec fn concerns(self, listener: u64) -> bool {
        self == ServiceStep::Deliver(listener) || self == ServiceStep::Drop(listener)
    }
}

/// The service after one step.
pub open spec fn after_step(service: ServiceState, step: ServiceStep) -> ServiceState {
    match step {
        ServiceStep::Commit(batch) => service.after_commit(batch),
        ServiceStep::Register => service.after_register(),
        ServiceStep::Deliver(listener) => service.after_deliver(listener),
        ServiceStep::Drop(listener) => service.after_drop(listener),
        ServiceStep::Shutdown => service.after_shutdown(),
    }
}

/// The service after a run of steps, one by one.
pub open spec fn after_steps(service: ServiceState, steps: Seq<ServiceStep>) -> ServiceState
    decreases steps.len(),
{
    if steps.len() == 0 {
        service
    } else {
        after_step(after_steps(service, steps.drop_last()), steps.last())
    }
}

/// A step leads from a service state to a service state; it never lowers
/// the latest change number nor the next listener id; a delivery that is
/// due to a listener stays due through every step that neither takes an
/// event from this listener's queue nor drops the listener, the tear-down
/// of the broadcaster among them; and a listener that lost its queue never
/// gets one again.
pub proof fn lemma_step(service: ServiceState, step: ServiceStep, listener: u64)
    requires
        service.wf(),
    ensures
        after_step(service, step).wf(),
        service.state.latest_change() <= after_step(service, step).state.latest_change(),
        service.registry.next_id <= after_step(service, step).registry.next_id,
        service.registry.due(listener) && !step.concerns(listener) ==> after_step(
            service,
            step,
        ).registry.due(listener),
        !service.registry.queued(listener) && listener < service.registry.next_id
            ==> !after_step(service, step).registry.queued(listener),
{
    match step {
        ServiceStep::Commit(batch) => {
            lemma_commit(service.state, batch);
            lemma_notify(service.registry);
        },
        ServiceStep::Register => {
            lemma_register(service.registry);
        },
        ServiceStep::Deliver(other) => {
            lemma_take(service.registry, other);
        },
        ServiceStep::Drop(other) => {
            lemma_drop(service.registry, other);
        },
        ServiceStep::Shutdown => {
            lemma_close(service.registry);
        },
    }
}

/// Every commit reaches every listener that is registered. Let a listener
/// be registered when the writer commits a batch. From that commit on,
/// through whatever else happens to the service, the tear-down of the
/// broadcaster too, a delivery to the listener is due until its delivery
/// loop takes an event from its queue or the listener is dropped; and the
/// update that is then made up for it carries the latest change number of
/// that moment, which is the number of the batch or greater.
pub proof fn lemma_commit_reaches_listener(
    service: ServiceState,
    batch: AssetBatchView,
    listener: u64,
    steps: Seq<ServiceStep>,
)
    requires
        service.wf(),
        service.state.can_commit(),
        service.registry.registered(listener),
        forall|k: int| 0 <= k < steps.len() ==> !(#[trigger] steps[k]).concerns(listener),
    ensures
        after_steps(service.after_commit(batch), steps).wf(),
        after_steps(service.after_commit(batch), steps).registry.due(listener),
        after_steps(service.after_commit(batch), steps).state.latest_change()
            >= service.state.latest_change() + 1,
    decreases steps.len(),
{
    let committed = service.after_commit(batch);
    if steps.len() == 0 {
        lemma_commit(service.state, batch);
        lemma_notify(service.registry);
    } else {
        let rest = steps.drop_last();
        assert forall|k: int| 0 <= k < rest.len() implies !(#[trigger] rest[k]).concerns(
            listener,
        ) by {
            assert(rest[k] == steps[k]);
        }
        lemma_commit_reaches_listener(service, batch, listener, rest);
        assert(!steps[steps.len() - 1].concerns(listener));
        lemma_step(after_steps(committed, rest), steps.last(), listener);
    }
}

/// A listener that was dropped is gone for good. Dropping a registered
/// listener makes the registry smaller by one, and through whatever happens
/// to the service afterwards the listener never has a queue again: it is
/// never registered, and no delivery to it is ever due.
pub proof fn lemma_dropped_listener_stays_out(
    service: ServiceState,
    listener: u64,
    steps: Seq<ServiceStep>,
)
    requires
        service.wf(),
        service.registry.registered(listener),
    ensures
        service.after_drop(listener).registry.size() == service.registry.size() - 1,
        after_steps(service.after_drop(listener), steps).wf(),
        !after_steps(service.after_drop(listener), steps).registry.queued(listener),
        !after_steps(service.after_drop(listener), steps).registry.registered(listener),
        !after_steps(service.after_drop(listener), steps).registry.due(listener),
        listener < after_steps(service.after_drop(listener), steps).registry.next_id,
    decreases steps.len(),
{
    let dropped = service.after_drop(listener);
    lemma_drop(service.registry, listener);
    let at = service.registry.index_of(listener);
    assert(service.registry.listeners[at].id < service.registry.next_id);
    if steps.len() > 0 {
        lemma_dropped_listener_stays_out(service, listener, steps.drop_last());
        lemma_step(after_steps(dropped, steps.drop_last()), steps.last(), listener);
    }
}

/// The tear-down of the broadcaster loses no event. Let events wait in a
/// listener's queue when the broadcaster is torn down. Each look of the
/// listener's delivery loop into the queue then takes one of them, until
/// the queue is empty; the look after that finds the queue closed and gives
/// it up.
pub proof fn lemma_shutdown_keeps_events(service: ServiceState, listener: u64)
    requires
        service.wf(),
    ensures
        service.after_shutdown().wf(),
        service.after_shutdown().state == service.state,
        service.after_shutdown().registry.pending(listener) == service.registry.pending(listener),
        service.registry.due(listener) ==> service.after_shutdown().registry.due(listener)
            && service.after_shutdown().after_deliver(listener).registry.pending(listener)
            == service.registry.pending(listener) - 1,
        service.registry.queued(listener) && !service.registry.due(listener)
            ==> !service.after_shutdown().after_deliver(listener).registry.queued(listener),
        forall|id: u64| !service.after_shutdown().registry.registered(id),
        !service.after_shutdown().registry.can_register(),
{
    lemma_close(service.registry);
    lemma_take(service.registry.after_close(), listener);
}

} // verus!
