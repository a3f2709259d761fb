use vstd::prelude::*;

verus! {

/// How many events the delivery queue of one listener holds at most.
pub const QUEUE_CAPACITY: usize = 16;

/// One listener and its delivery queue. Every event in the queue is a
/// `Commit`, so the queue is the number of events it holds.
#[derive(Clone, Copy, Debug, PartialEq, Eq, Structural)]
pub struct Listener {
    pub id: u64,
    pub pending: usize,
}

impl Listener {
    /// The listener after the writer sent one more `Commit`: the event is
    /// queued where there is room; a full queue stays as it is, since the
    /// events already in it stand for the new one too.
    pub open spec fn notified(self) -> Listener {
        if self.pending < QUEUE_CAPACITY {
            Listener { id: self.id, pending: (self.pending + 1) as usize }
        } else {
            self
        }
    }

    /// The listener after one event left the queue.
    pub open spec fn taken(self) -> Listener {
        Listener { id: self.id, pending: (self.pending - 1) as usize }
    }
}

/// The listener registry, as a mathematical value.
pub struct Registry {
    /// The listeners that have a queue, oldest first.
    pub listeners: Seq<Listener>,
    /// The id that the next registration gets.
    pub next_id: u64,
    /// Whether the broadcaster was torn down. From then on nobody is
    /// registered and nobody is told of a commit; the queues stay with
    /// their delivery loops until these have emptied them.
    pub closed: bool,
}

impl Registry {
    /// What holds of every registry: no id has two queues, every id that
    /// has a queue was handed out, and no queue is over its capacity.
    pub open spec fn wf(self) -> bool {
        &&& forall|i: int, j: int|
            0 <= i < j < self.listeners.len() ==> self.listeners[i].id != self.listeners[j].id
        &&& forall|i: int|
            0 <= i < self.listeners.len() ==> (#[trigger] self.listeners[i]).id < self.next_id
        &&& forall|i: int|
            0 <= i < self.listeners.len() ==> (#[trigger] self.listeners[i]).pending
                <= QUEUE_CAPACITY
    }

    /// A registry without listeners.
    pub open spec fn empty() -> Registry {
        Registry { listeners: Seq::empty(), next_id: 0, closed: false }
    }

    /// Whether a listener has a delivery queue.
    pub open spec fn queued(self, id: u64) -> bool {
        exists|i: int| 0 <= i < self.listeners.len() && #[trigger] self.listeners[i].id == id
    }

    /// Where a listener with a queue stands.
    pub open spec fn index_of(self, id: u64) -> int {
        choose|i: int| 0 <= i < self.listeners.len() && #[trigger] self.listeners[i].id == id
    }

    /// Whether a listener is registered: it has a queue, and the writer
    /// still sends to it.
    pub open spec fn registered(self, id: u64) -> bool {
        !self.closed && self.queued(id)
    }

    /// How many listeners are registered.
    pub open spec fn size(self) -> nat {
        if self.closed {
            0
        } else {
            self.listeners.len()
        }
    }

    /// How many events wait in a listener's queue; 0 for a listener
    /// without a queue.
    pub open spec fn pending(self, id: u64) -> nat {
        if self.queued(id) {
            self.listeners[self.index_of(id)].pending as nat
        } else {
            0
        }
    }

    /// Whether a delivery to this listener is due: an event waits in its
    /// queue.
    pub open spec fn due(self, id: u64) -> bool {
        self.queued(id) && self.pending(id) > 0
    }

    /// Whether another listener can be registered: the broadcaster was not
    /// torn down, and ids are left.
    pub open spec fn can_register(self) -> bool {
        !self.closed && self.next_id < u64::MAX
    }

    /// The registry after one more listener registered: it gets the next
    /// id, and its queue holds one `Commit` from the start, so that it is
    /// sent an initial snapshot. A registry that cannot register stays as
    /// it is.
    pub open spec fn after_register(self) -> Registry {
        if self.can_register() {
            Registry {
                listeners: self.listeners.push(Listener { id: self.next_id, pending: 1 }),
                next_id: (self.next_id + 1) as u64,
                closed: self.closed,
            }
        } else {
            self
        }
    }

    /// The registry after the writer told every registered listener of one
    /// commit. After the tear-down nobody is told.
    pub open spec fn after_notify(self) -> Registry {
        if self.closed {
            self
        } else {
            Registry {
                listeners: Seq::new(self.listeners.len(), |i: int| self.listeners[i].notified()),
                next_id: self.next_id,
                closed: self.closed,
            }
        }
    }

    /// The registry after a delivery loop looked into its listener's queue.
    /// An event that waits is taken. An empty queue stays while the writer
    /// may still send to it; after the tear-down it is given up.
    pub open spec fn after_take(self, id: u64) -> Registry {
        if self.due(id) {
            Registry {
                listeners: self.listeners.update(
                    self.index_of(id),
                    self.listeners[self.index_of(id)].taken(),
                ),
                next_id: self.next_id,
                closed: self.closed,
            }
        } else if self.queued(id) && self.closed {
            Registry {
                listeners: self.listeners.remove(self.index_of(id)),
                next_id: self.next_id,
                closed: self.closed,
            }
        } else {
            self
        }
    }

    /// The registry after a listener was dropped, with its queue and what
    /// waits in it; unchanged where the listener had no queue.
    pub open spec fn after_drop(self, id: u64) -> Registry {
        if self.queued(id) {
            Registry {
                listeners: self.listeners.remove(self.index_of(id)),
                next_id: self.next_id,
                closed: self.closed,
            }
        } else {
            self
        }
    }

    /// The registry after the broadcaster was torn down: nobody is
    /// registered any more, and every queue keeps what waits in it.
    pub open spec fn after_close(self) -> Registry {
        Registry { listeners: self.listeners, next_id: self.next_id, closed: true }
    }
}

/// In a registry, the place of an id with a queue is the one place that
/// holds it, and the queue found under the id is the one at that place.
pub proof fn lemma_index_of(registry: Registry, i: int)
    requires
        registry.wf(),
        0 <= i < registry.listeners.len(),
    ensures
        registry.queued(registry.listeners[i].id),
        registry.index_of(registry.listeners[i].id) == i,
        registry.pending(registry.listeners[i].id) == registry.listeners[i].pending,
{
    let id = registry.listeners[i].id;
    assert(registry.listeners[i].id == id);
    let c = registry.index_of(id);
    if c < i {
        assert(registry.listeners[c].id != registry.listeners[i].id);
    } else if c > i {
        assert(registry.listeners[i].id != registry.listeners[c].id);
    }
}

/// A registration leaves every queue as it was, and hands out an id that
/// never had a queue before.
pub proof fn lemma_register(registry: Registry)
    requires
        registry.wf(),
    ensures
        registry.after_register().wf(),
        registry.after_register().closed == registry.closed,
        registry.next_id <= registry.after_register().next_id,
        !registry.queued(registry.next_id),
        forall|id: u64|
            id != registry.next_id ==> (registry.queued(id) <==> registry.after_register().queued(
                id,
            )),
        forall|id: u64|
            registry.queued(id) ==> registry.after_register().pending(id) == registry.pending(id),
        registry.can_register() ==> registry.after_register().queued(registry.next_id)
            && registry.after_register().pending(registry.next_id) == 1
            && registry.after_register().size() == registry.size() + 1,
{
    let after = registry.after_register();
    if registry.queued(registry.next_id) {
        let i = registry.index_of(registry.next_id);
        assert(registry.listeners[i].id < registry.next_id);
    }
    if registry.can_register() {
        assert forall|i: int, j: int| 0 <= i < j < after.listeners.len() implies after.listeners[i].id
            != after.listeners[j].id by {
            if j < registry.listeners.len() {
                assert(registry.listeners[i].id != registry.listeners[j].id);
            } else {
                assert(registry.listeners[i].id < registry.next_id);
            }
        }
        assert forall|i: int| 0 <= i < after.listeners.len() implies (
        #[trigger] after.listeners[i]).id < after.next_id && after.listeners[i].pending
            <= QUEUE_CAPACITY by {
            if i < registry.listeners.len() {
                assert(registry.listeners[i].id < registry.next_id);
                assert(registry.listeners[i].pending <= QUEUE_CAPACITY);
            }
        }
        assert forall|id: u64| id != registry.next_id implies (registry.queued(id)
            <==> after.queued(id)) by {
            if registry.queued(id) {
                let i = registry.index_of(id);
                assert(after.listeners[i].id == id);
            }
            if after.queued(id) {
                let i = after.index_of(id);
                assert(registry.listeners[i].id == id);
            }
        }
        assert forall|id: u64| registry.queued(id) implies after.pending(id) == registry.pending(
            id,
        ) by {
            let i = registry.index_of(id);
            lemma_index_of(registry, i);
            assert(after.listeners[i] == registry.listeners[i]);
            lemma_index_of(after, i);
        }
        lemma_index_of(after, registry.listeners.len() as int);
    }
}

/// Telling the listeners of a commit keeps every queue, and leaves an event
/// in the queue of every registered listener.
pub proof fn lemma_notify(registry: Registry)
    requires
        registry.wf(),
    ensures
        registry.after_notify().wf(),
        registry.after_notify().next_id == registry.next_id,
        registry.after_notify().closed == registry.closed,
        registry.after_notify().size() == registry.size(),
        forall|id: u64| registry.queued(id) <==> registry.after_notify().queued(id),
        forall|id: u64| registry.after_notify().pending(id) >= registry.pending(id),
        forall|id: u64| registry.registered(id) ==> registry.after_notify().pending(id) >= 1,
{
    let after = registry.after_notify();
    if !registry.closed {
        assert forall|i: int, j: int| 0 <= i < j < after.listeners.len() implies after.listeners[i].id
            != after.listeners[j].id by {
            assert(registry.listeners[i].id != registry.listeners[j].id);
        }
        assert forall|i: int| 0 <= i < after.listeners.len() implies (
        #[trigger] after.listeners[i]).id < after.next_id && after.listeners[i].pending
            <= QUEUE_CAPACITY by {
            assert(registry.listeners[i].id < registry.next_id);
            assert(registry.listeners[i].pending <= QUEUE_CAPACITY);
        }
        assert forall|id: u64| registry.queued(id) <==> after.queued(id) by {
            if registry.queued(id) {
                let i = registry.index_of(id);
                assert(after.listeners[i].id == id);
            }
            if after.queued(id) {
                let i = after.index_of(id);
                assert(registry.listeners[i].id == id);
            }
        }
        assert forall|id: u64| after.pending(id) >= registry.pending(id) && (registry.registered(
            id,
        ) ==> after.pending(id) >= 1) by {
            if registry.queued(id) {
                let i = registry.index_of(id);
                lemma_index_of(registry, i);
                assert(after.listeners[i] == registry.listeners[i].notified());
                lemma_index_of(after, i);
            }
        }
    }
}

/// Removing the queue at one place keeps every other queue as it was.
proof fn lemma_remove(registry: Registry, after: Registry, listener: u64)
    requires
        registry.wf(),
        registry.queued(listener),
        after == (Registry {
            listeners: registry.listeners.remove(registry.index_of(listener)),
            next_id: registry.next_id,
            closed: registry.closed,
        }),
    ensures
        after.wf(),
        !after.queued(listener),
        after.listeners.len() == registry.listeners.len() - 1,
        forall|id: u64| id != listener ==> (registry.queued(id) <==> after.queued(id)),
        forall|id: u64| id != listener ==> after.pending(id) == registry.pending(id),
{
    let at = registry.index_of(listener);
    assert(registry.listeners[at].id == listener);
    assert forall|i: int| 0 <= i < after.listeners.len() implies (#[trigger] after.listeners[i]).id
        != listener && after.listeners[i].id < after.next_id && after.listeners[i].pending
        <= QUEUE_CAPACITY by {
        let i0 = if i < at { i } else { i + 1 };
        assert(after.listeners[i] == registry.listeners[i0]);
        if i0 < at {
            assert(registry.listeners[i0].id != registry.listeners[at].id);
        } else {
            assert(registry.listeners[at].id != registry.listeners[i0].id);
        }
        assert(registry.listeners[i0].id < registry.next_id);
        assert(registry.listeners[i0].pending <= QUEUE_CAPACITY);
    }
    assert forall|i: int, j: int| 0 <= i < j < after.listeners.len() implies after.listeners[i].id
        != after.listeners[j].id by {
        let i0 = if i < at { i } else { i + 1 };
        let j0 = if j < at { j } else { j + 1 };
        assert(registry.listeners[i0].id != registry.listeners[j0].id);
    }
    if after.queued(listener) {
        let i = after.index_of(listener);
        assert(after.listeners[i].id != listener);
    }
    assert forall|id: u64| id != listener implies (registry.queued(id) <==> after.queued(id)) by {
        if registry.queued(id) {
            let i = registry.index_of(id);
            let i1 = if i < at { i } else { i - 1 };
            assert(after.listeners[i1].id == id);
        }
        if after.queued(id) {
            let i = after.index_of(id);
            let i0 = if i < at { i } else { i + 1 };
            assert(registry.listeners[i0].id == id);
        }
    }
    assert forall|id: u64| id != listener implies after.pending(id) == registry.pending(id) by {
        if registry.queued(id) {
            let i = registry.index_of(id);
            let i1 = if i < at { i } else { i - 1 };
            lemma_index_of(registry, i);
            assert(after.listeners[i1] == registry.listeners[i]);
            lemma_index_of(after, i1);
        }
    }
}

/// A look into one listener's queue leaves the queues of the other
/// listeners as they were. Of the listener's own queue it takes one event
/// where one waits; it gives the queue up where it is empty after the
/// tear-down; else it leaves it as it was.
pub proof fn lemma_take(registry: Registry, listener: u64)
    requires
        registry.wf(),
    ensures
        registry.after_take(listener).wf(),
        registry.after_take(listener).next_id == registry.next_id,
        registry.after_take(listener).closed == registry.closed,
        forall|id: u64|
            id != listener ==> (registry.queued(id) <==> registry.after_take(listener).queued(id)),
        forall|id: u64|
            id != listener ==> registry.after_take(listener).pending(id) == registry.pending(id),
        registry.due(listener) ==> registry.after_take(listener).queued(listener)
            && registry.after_take(listener).pending(listener) == registry.pending(listener) - 1,
        !registry.due(listener) && registry.registered(listener) ==> registry.after_take(listener)
            == registry,
        !registry.due(listener) && !registry.registered(listener) ==> !registry.after_take(
            listener,
        ).queued(listener),
{
    let after = registry.after_take(listener);
    if registry.due(listener) {
        let at = registry.index_of(listener);
        lemma_index_of(registry, at);
        assert forall|i: int, j: int| 0 <= i < j < after.listeners.len() implies after.listeners[i].id
            != after.listeners[j].id by {
            assert(registry.listeners[i].id != registry.listeners[j].id);
        }
        assert forall|i: int| 0 <= i < after.listeners.len() implies (
        #[trigger] after.listeners[i]).id < after.next_id && after.listeners[i].pending
            <= QUEUE_CAPACITY by {
            assert(registry.listeners[i].id < registry.next_id);
            assert(registry.listeners[i].pending <= QUEUE_CAPACITY);
        }
        assert forall|id: u64| registry.queued(id) <==> after.queued(id) by {
            if registry.queued(id) {
                let i = registry.index_of(id);
                assert(after.listeners[i].id == id);
            }
            if after.queued(id) {
                let i = after.index_of(id);
                assert(registry.listeners[i].id == id);
            }
        }
        assert forall|id: u64| id != listener implies after.pending(id) == registry.pending(
            id,
        ) by {
            if registry.queued(id) {
                let i = registry.index_of(id);
                lemma_index_of(registry, i);
                assert(after.listeners[i] == registry.listeners[i]);
                lemma_index_of(after, i);
            }
        }
        lemma_index_of(after, at);
    } else if registry.queued(listener) && registry.closed {
        lemma_remove(registry, after, listener);
    }
}

/// Dropping a listener takes its queue away and leaves every other queue
/// as it was. Where the listener was registered, one listener fewer is
/// registered afterwards.
pub proof fn lemma_drop(registry: Registry, listener: u64)
    requires
        registry.wf(),
    ensures
        registry.after_drop(listener).wf(),
        registry.after_drop(listener).next_id == registry.next_id,
        registry.after_drop(listener).closed == registry.closed,
        !registry.after_drop(listener).queued(listener),
        registry.after_drop(listener).size() == registry.size() - (if registry.registered(
            listener,
        ) {
            1int
        } else {
            0int
        }),
        !registry.queued(listener) ==> registry.after_drop(listener) == registry,
        forall|id: u64|
            id != listener ==> (registry.queued(id) <==> registry.after_drop(listener).queued(id)),
        forall|id: u64|
            id != listener ==> registry.after_drop(listener).pending(id) == registry.pending(id),
{
    if registry.queued(listener) {
        lemma_remove(registry, registry.after_drop(listener), listener);
    }
}

/// The tear-down takes nothing out of a queue: every queue holds afterwards
/// what it held before. Nobody is registered any more, and nobody can
/// register.
pub proof fn lemma_close(registry: Registry)
    requires
        registry.wf(),
    ensures
        registry.after_close().wf(),
        registry.after_close().next_id == registry.next_id,
        registry.after_close().size() == 0,
        !registry.after_close().can_register(),
        forall|id: u64| !registry.after_close().registered(id),
        forall|id: u64| registry.queued(id) <==> registry.after_close().queued(id),
        forall|id: u64| registry.after_close().pending(id) == registry.pending(id),
        forall|id: u64| registry.due(id) <==> registry.after_close().due(id),
{
    let after = registry.after_close();
    assert forall|id: u64| (registry.queued(id) <==> after.queued(id)) && after.pending(id)
        == registry.pending(id) by {
        if registry.queued(id) {
            let i = registry.index_of(id);
            assert(after.listeners[i].id == id);
            lemma_index_of(registry, i);
            lemma_index_of(after, i);
        }
        if after.queued(id) {
            let i = after.index_of(id);
            assert(registry.listeners[i].id == id);
        }
    }
}

} // verus!
