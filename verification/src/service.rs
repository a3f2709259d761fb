use crate::broadcaster::{ChangeBroadcaster, Received};
use crate::error::Error;
use crate::records::{AssetBatch, AssetBatchView};
use crate::registry::Registry;
use crate::snapshot::AssetHubSnapshot;
use crate::state::HubState;
use crate::store::Store;
use vstd::prelude::*;

verus! {

/// The service, as a mathematical value: the committed state and the
/// listener registry.
pub struct ServiceState {
    pub state: HubState,
    pub registry: Registry,
}

impl ServiceState {
    /// What holds of every service state.
    pub open spec fn wf(self) -> bool {
        self.state.wf() && self.registry.wf()
    }

    /// The service after the writer committed a batch: the state holds the
    /// batch and every listener was told. A service whose store cannot take
    /// the batch stays as it is.
    pub open spec fn after_commit(self, batch: AssetBatchView) -> ServiceState {
        if self.state.can_commit() {
            ServiceState {
                state: self.state.after_commit(batch),
                registry: self.registry.after_notify(),
            }
        } else {
            self
        }
    }

    /// The service after the writer committed a run of batches, one by one.
    pub open spec fn after_commits(self, batches: Seq<AssetBatchView>) -> ServiceState
        decreases batches.len(),
    {
        if batches.len() == 0 {
            self
        } else {
            self.after_commits(batches.drop_last()).after_commit(batches.last())
        }
    }

    /// The service after one more listener registered.
    pub open spec fn after_register(self) -> ServiceState {
        ServiceState { state: self.state, registry: self.registry.after_register() }
    }

    /// The service after a delivery loop looked into its listener's queue.
    pub open spec fn after_deliver(self, listener: u64) -> ServiceState {
        ServiceState { state: self.state, registry: self.registry.after_take(listener) }
    }

    /// The service after its broadcaster was torn down: the committed state
    /// stays, nobody is registered, and every queue keeps what waits in it.
    pub open spec fn after_shutdown(self) -> ServiceState {
        ServiceState { state: self.state, registry: self.registry.after_close() }
    }

    /// The service after a listener was dropped.
    pub open spec fn after_drop(self, listener: u64) -> ServiceState {
        ServiceState { state: self.state, registry: self.registry.after_drop(listener) }
    }
}

/// What a delivery loop has to do next for its listener.
#[derive(Debug)]
pub enum Delivery {
    /// Send the listener an update that carries the latest change number
    /// and a fresh snapshot.
    Update { latest_change: u64, snapshot: AssetHubSnapshot },
    /// Nothing waits in the queue of a registered listener: wait for the
    /// next event.
    Idle,
    /// The listener is not registered, and nothing is left in its queue:
    /// leave the loop.
    Closed,
}

/// Whether a delivery loop goes on after a send.
#[derive(Clone, Copy, Debug, PartialEq, Eq, Structural)]
pub enum LoopControl {
    /// The send went through: look into the queue again.
    Continue,
    /// The send failed and the listener was dropped: leave the loop.
    Exit,
}

/// What the root capability and the snapshots work on: the store and the
/// change broadcaster.
#[derive(Debug)]
struct ServiceContext {
    db: Store,
    hub: ChangeBroadcaster,
}

/// The asset hub service: it mints snapshots, registers listeners, and
/// tells them of every batch that the writer commits.
#[derive(Debug)]
pub struct AssetHubService {
    ctx: ServiceContext,
}

impl View for AssetHubService {
    type V = ServiceState;

    closed spec fn view(&self) -> ServiceState {
        ServiceState { state: self.ctx.db@, registry: self.ctx.hub@ }
    }
}

impl AssetHubService {
    /// The invariant of the service.
    pub open spec fn wf(&self) -> bool {
        self@.wf()
    }

    /// A service over the given store and broadcaster.
    pub fn new(db: Store, hub: ChangeBroadcaster) -> (service: AssetHubService)
        requires
            db.wf(),
            hub.wf(),
        ensures
            service.wf(),
            service@ == (ServiceState { state: db@, registry: hub@ }),
    {
        AssetHubService { ctx: ServiceContext { db, hub } }
    }

    /// Whether the service keeps its invariant. A service over a store
    /// and a broadcaster that were made and changed by the functions of
    /// this library alone does.
    pub fn is_consistent(&self) -> (r: bool)
        ensures
            r == self.wf(),
    {
        self.ctx.db.is_committed() && self.ctx.hub.is_consistent()
    }

    /// Mints a snapshot of the state as it is committed now.
    pub fn get_snapshot(&self) -> (snapshot: AssetHubSnapshot)
        requires
            self.wf(),
        ensures
            snapshot.wf(),
            snapshot@ == self@.state,
    {
        self.ctx.db.snapshot()
    }

    /// Registers a listener with the broadcaster and hands back the id of
    /// the registration. The listener's queue holds one `Commit` from the
    /// start, so a delivery to it is due at once. Nothing is registered
    /// after the tear-down, nor where no id is left.
    pub fn register_listener(&mut self) -> (r: Option<u64>)
        requires
            old(self).wf(),
        ensures
            final(self).wf(),
            final(self)@ == old(self)@.after_register(),
            r is Some <==> old(self)@.registry.can_register(),
            r matches Some(id) ==> id == old(self)@.registry.next_id && !old(
                self,
            )@.registry.queued(id) && final(self)@.registry.registered(id) && final(self)@.registry.due(id) && final(self)@.registry.pending(id) == 1,
    {
        self.ctx.hub.register()
    }

    /// How many listeners are registered.
    pub fn listener_count(&self) -> (n: usize)
        ensures
            n == self@.registry.size(),
    {
        self.ctx.hub.size()
    }

    /// Commits one batch of the writer and tells every registered listener
    /// of it. Hands back the sequence number of the batch. Where the store
    /// refuses the batch, nothing changes and nobody is told.
    pub fn commit(&mut self, batch: &AssetBatch) -> (r: Result<u64, Error>)
        requires
            old(self).wf(),
        ensures
            final(self).wf(),
            final(self)@ == old(self)@.after_commit(batch@),
            r is Ok <==> old(self)@.state.can_commit(),
            r matches Ok(seq) ==> seq == old(self)@.state.latest_change() + 1,
            r matches Err(e) ==> e == Error::StoreError,
    {
        match self.ctx.db.commit(batch) {
            Ok(seq) => {
                self.ctx.hub.notify_commit();
                Ok(seq)
            },
            Err(e) => Err(e),
        }
    }

    /// One turn of a listener's delivery loop. Where an event waits in the
    /// listener's queue, it is taken, and the update to send is made up: a
    /// fresh snapshot and the latest change number that it sees. That is so
    /// after the tear-down of the broadcaster too, until the queue is
    /// empty. Where the queue is empty, the loop has to wait if the
    /// listener is registered, and has to end if it is not.
    pub fn deliver(&mut self, listener: u64) -> (r: Delivery)
        requires
            old(self).wf(),
        ensures
            final(self).wf(),
            final(self)@ == old(self)@.after_deliver(listener),
            match r {
                Delivery::Update { latest_change, snapshot } => {
                    &&& old(self)@.registry.due(listener)
                    &&& snapshot.wf()
                    &&& snapshot@ == old(self)@.state
                    &&& latest_change == old(self)@.state.latest_change()
                },
                Delivery::Idle => old(self)@.registry.registered(listener) && !old(
                    self,
                )@.registry.due(listener),
                Delivery::Closed => !old(self)@.registry.registered(listener) && !old(
                    self,
                )@.registry.due(listener),
            },
    {
        match self.ctx.hub.take_event(listener) {
            Received::Event(_) => {
                let snapshot = self.ctx.db.snapshot();
                let latest_change = snapshot.get_latest_asset_change();
                Delivery::Update { latest_change, snapshot }
            },
            Received::Empty => Delivery::Idle,
            Received::Closed => Delivery::Closed,
        }
    }

    /// What a delivery loop does once a send has ended. A send that went
    /// through lets the loop go on. A send that failed is not tried again:
    /// the listener is dropped from the registry and the loop ends.
    pub fn after_send(&mut self, listener: u64, sent: bool) -> (r: LoopControl)
        requires
            old(self).wf(),
        ensures
            final(self).wf(),
            sent ==> r == LoopControl::Continue && final(self)@ == old(self)@,
            !sent ==> r == LoopControl::Exit && final(self)@ == old(self)@.after_drop(listener)
                && !final(self)@.registry.queued(listener),
    {
        if sent {
            LoopControl::Continue
        } else {
            self.ctx.hub.drop_listener(listener);
            LoopControl::Exit
        }
    }

    /// Tears the broadcaster down. The committed state stays. Nobody is
    /// registered any more, and nobody can register. What waits in a queue
    /// stays there: each delivery loop is handed the events that are left
    /// in its queue, and ends once the queue is empty.
    pub fn shutdown(&mut self)
        requires
            old(self).wf(),
        ensures
            final(self).wf(),
            final(self)@ == old(self)@.after_shutdown(),
            forall|id: u64| !final(self)@.registry.registered(id),
            forall|id: u64| final(self)@.registry.pending(id) == old(self)@.registry.pending(id),
    {
        self.ctx.hub.close();
    }

    /// Drops a listener with its queue and what waits in it. Says whether
    /// the listener was registered.
    pub fn drop_listener(&mut self, listener: u64) -> (was_registered: bool)
        requires
            old(self).wf(),
        ensures
            final(self).wf(),
            final(self)@ == old(self)@.after_drop(listener),
            was_registered == old(self)@.registry.registered(listener),
            !final(self)@.registry.queued(listener),
            final(self)@.registry.size() == old(self)@.registry.size() - (if was_registered {
                1int
            } else {
                0int
            }),
    {
        self.ctx.hub.drop_listener(listener)
    }
}

} // verus!
