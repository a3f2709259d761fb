use crate::registry::{
    lemma_close, lemma_drop, lemma_index_of, lemma_notify, lemma_register, lemma_take, Listener,
    QUEUE_CAPACITY, Registry,
};
use vstd::prelude::*;

verus! {

/// What the writer tells the listeners.
#[derive(Clone, Copy, Debug, PartialEq, Eq, Structural)]
pub enum AssetBatchEvent {
    /// A batch was committed.
    Commit,
}

/// What a delivery loop finds when it looks into its queue.
#[derive(Clone, Copy, Debug, PartialEq, Eq, Structural)]
pub enum Received {
    /// An event was waiting and has been taken.
    Event(AssetBatchEvent),
    /// The queue is empty: the loop waits.
    Empty,
    /// The queue is closed and nothing is left in it: the loop ends.
    Closed,
}

/// What a look into a listener's queue finds.
pub open spec fn spec_received(registry: Registry, id: u64) -> Received {
    if registry.due(id) {
        Received::Event(AssetBatchEvent::Commit)
    } else if registry.registered(id) {
        Received::Empty
    } else {
        Received::Closed
    }
}

/// The change broadcaster: it owns the registered listeners and their
/// delivery queues.
#[derive(Debug)]
pub struct ChangeBroadcaster {
    pub(crate) listeners: Vec<Listener>,
    pub(crate) next_id: u64,
    pub(crate) closed: bool,
}

impl View for ChangeBroadcaster {
    type V = Registry;

    closed spec fn view(&self) -> Registry {
        Registry { listeners: self.listeners@, next_id: self.next_id, closed: self.closed }
    }
}

impl ChangeBroadcaster {
    /// The invariant of the broadcaster.
    pub open spec fn wf(&self) -> bool {
        self@.wf()
    }

    /// A broadcaster without listeners.
    pub fn new() -> (broadcaster: ChangeBroadcaster)
        ensures
            broadcaster.wf(),
            broadcaster@ == Registry::empty(),
    {
        ChangeBroadcaster { listeners: Vec::new(), next_id: 0, closed: false }
    }

    /// Whether the broadcaster keeps its invariant. A broadcaster that was
    /// made and changed by the functions of this type alone does.
    pub fn is_consistent(&self) -> (r: bool)
        ensures
            r == self.wf(),
    {
        let mut j: usize = 0;
        while j < self.listeners.len()
            invariant
                j <= self.listeners@.len(),
                forall|a: int, b: int|
                    0 <= a < b < j ==> self.listeners@[a].id != self.listeners@[b].id,
                forall|a: int| 0 <= a < j ==> (#[trigger] self.listeners@[a]).id < self.next_id,
                forall|a: int|
                    0 <= a < j ==> (#[trigger] self.listeners@[a]).pending <= QUEUE_CAPACITY,
            decreases self.listeners@.len() - j,
        {
            let listener = self.listeners[j];
            if listener.id >= self.next_id || listener.pending > QUEUE_CAPACITY {
                assert(self@.listeners[j as int] == listener);
                return false;
            }
            let mut i: usize = 0;
            while i < j
                invariant
                    i <= j,
                    j < self.listeners@.len(),
                    listener == self.listeners@[j as int],
                    forall|a: int| 0 <= a < i ==> self.listeners@[a].id != listener.id,
                decreases j - i,
            {
                if self.listeners[i].id == listener.id {
                    assert(self@.listeners[i as int].id == self@.listeners[j as int].id);
                    return false;
                }
                i = i + 1;
            }
            j = j + 1;
        }
        true
    }

    /// How many listeners are registered.
    pub fn size(&self) -> (n: usize)
        ensures
            n == self@.size(),
    {
        if self.closed {
            0
        } else {
            self.listeners.len()
        }
    }

    /// Whether the broadcaster was torn down.
    pub fn is_closed(&self) -> (r: bool)
        ensures
            r == self@.closed,
    {
        self.closed
    }

    /// Where a listener's queue stands.
    fn find(&self, id: u64) -> (r: Option<usize>)
        requires
            self.wf(),
        ensures
            r is Some <==> self@.queued(id),
            r matches Some(i) ==> i == self@.index_of(id) && i < self.listeners@.len()
                && self.listeners@[i as int].id == id && self.listeners@[i as int].pending
                == self@.pending(id),
    {
        let mut i: usize = 0;
        while i < self.listeners.len()
            invariant
                self.wf(),
                i <= self.listeners@.len(),
                forall|j: int| 0 <= j < i ==> self.listeners@[j].id != id,
            decreases self.listeners@.len() - i,
        {
            if self.listeners[i].id == id {
                proof {
                    lemma_index_of(self@, i as int);
                }
                return Some(i);
            }
            i = i + 1;
        }
        None
    }

    /// Whether a listener is registered.
    pub fn is_registered(&self, id: u64) -> (r: bool)
        requires
            self.wf(),
        ensures
            r == self@.registered(id),
    {
        !self.closed && self.find(id).is_some()
    }

    /// How many events wait in a listener's queue.
    pub fn pending(&self, id: u64) -> (n: usize)
        requires
            self.wf(),
        ensures
            n == self@.pending(id),
    {
        match self.find(id) {
            Some(i) => self.listeners[i].pending,
            None => 0,
        }
    }

    /// Registers one more listener and hands back its id. Its queue has
    /// room for 16 events and holds one `Commit` from the start, so that
    /// the listener is sent an initial snapshot. Nothing is registered
    /// after the tear-down, nor where no id is left.
    pub fn register(&mut self) -> (r: Option<u64>)
        requires
            old(self).wf(),
        ensures
            final(self).wf(),
            final(self)@ == old(self)@.after_register(),
            r is Some <==> old(self)@.can_register(),
            r matches Some(id) ==> id == old(self)@.next_id && !old(self)@.queued(id) && final(self)@.registered(id) && final(self)@.pending(id) == 1,
    {
        if self.closed || self.next_id == u64::MAX {
            return None;
        }
        let id = self.next_id;
        let ghost before = self@;
        self.listeners.push(Listener { id, pending: 1 });
        self.next_id = id + 1;
        proof {
            assert(self@.listeners =~= before.after_register().listeners);
            lemma_register(before);
        }
        Some(id)
    }

    /// Tells every registered listener of one commit: each queue gets one
    /// `Commit` more, but for a full queue, whose events stand for the new
    /// one too. After the tear-down nobody is told.
    pub fn notify_commit(&mut self)
        requires
            old(self).wf(),
        ensures
            final(self).wf(),
            final(self)@ == old(self)@.after_notify(),
    {
        let ghost before = self@;
        proof {
            lemma_notify(before);
        }
        if self.closed {
            return ;
        }
        let mut i: usize = 0;
        while i < self.listeners.len()
            invariant
                i <= self.listeners@.len(),
                self.next_id == before.next_id,
                self.closed == before.closed,
                self.listeners@.len() == before.listeners.len(),
                forall|j: int| 0 <= j < i ==> self.listeners@[j] == before.listeners[j].notified(),
                forall|j: int|
                    i <= j < self.listeners@.len() ==> self.listeners@[j] == before.listeners[j],
            decreases self.listeners@.len() - i,
        {
            let listener = self.listeners[i];
            if listener.pending < QUEUE_CAPACITY {
                self.listeners.set(i, Listener { id: listener.id, pending: listener.pending + 1 });
            }
            i = i + 1;
        }
        assert(self@.listeners =~= before.after_notify().listeners);
    }

    /// Looks into a listener's queue for its delivery loop. An event that
    /// waits is taken and handed over, before and after the tear-down.
    /// An empty queue lets the loop wait while the listener is registered;
    /// after the tear-down it is closed, and is given up.
    pub fn take_event(&mut self, id: u64) -> (r: Received)
        requires
            old(self).wf(),
        ensures
            final(self).wf(),
            final(self)@ == old(self)@.after_take(id),
            r == spec_received(old(self)@, id),
    {
        let ghost before = self@;
        proof {
            lemma_take(before, id);
        }
        match self.find(id) {
            None => Received::Closed,
            Some(i) => {
                let listener = self.listeners[i];
                if listener.pending > 0 {
                    self.listeners.set(i, Listener { id: listener.id, pending: listener.pending - 1 });
                    assert(self@.listeners =~= before.after_take(id).listeners);
                    Received::Event(AssetBatchEvent::Commit)
                } else if self.closed {
                    self.listeners.remove(i);
                    assert(self@.listeners =~= before.after_take(id).listeners);
                    Received::Closed
                } else {
                    Received::Empty
                }
            },
        }
    }

    /// Tears the broadcaster down. Nobody is registered any more, and
    /// nobody can register. What waits in a queue stays there: the delivery
    /// loop of each listener is handed the events that are left, and finds
    /// its queue closed once it is empty.
    pub fn close(&mut self)
        requires
            old(self).wf(),
        ensures
            final(self).wf(),
            final(self)@ == old(self)@.after_close(),
            forall|id: u64| !final(self)@.registered(id),
            forall|id: u64| final(self)@.pending(id) == old(self)@.pending(id),
    {
        proof {
            lemma_close(self@);
        }
        self.closed = true;
    }

    /// Drops a listener with its queue and what waits in it. Says whether
    /// the listener was registered.
    pub fn drop_listener(&mut self, id: u64) -> (was_registered: bool)
        requires
            old(self).wf(),
        ensures
            final(self).wf(),
            final(self)@ == old(self)@.after_drop(id),
            was_registered == old(self)@.registered(id),
            !final(self)@.queued(id),
            final(self)@.size() == old(self)@.size() - (if was_registered {
                1int
            } else {
                0int
            }),
    {
        let ghost before = self@;
        proof {
            lemma_drop(before, id);
        }
        match self.find(id) {
            None => false,
            Some(i) => {
                self.listeners.remove(i);
                assert(self@.listeners =~= before.after_drop(id).listeners);
                !self.closed
            },
        }
    }
}

} // verus!
