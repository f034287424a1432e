//! Event channel: typed, queued publish/subscribe for decoupled
//! cross-system signaling.
//!
//! Events are queued per payload type and drained in publication order.
//! The verified core works over one queue per type key; boxing a payload
//! and recovering its type key are the only trusted steps.

use core::any::Any;
use core::any::TypeId;
use vstd::prelude::*;

verus! {

/// `TypeId` itself is opaque to the verifier; two values are equal
/// exactly when they identify the same type.
#[verifier::external_type_specification]
#[verifier::external_body]
pub struct ExTypeId(TypeId);

/// One queued event, type-erased. The payload is opaque to the
/// verifier; the bus only moves it between queues and hands it back.
#[verifier::external_body]
pub struct BoxedEvent {
    inner: Box<dyn Any + Send>,
}

/// What [`BoxedEvent::type_key`] returns: the key of the payload's
/// dynamic type, a function of the boxed value alone.
pub uninterp spec fn event_key_of(event: BoxedEvent) -> TypeId;

impl BoxedEvent {
    /// Relies on `Box::new`: wraps a payload for queueing.
    #[verifier::external_body]
    pub fn of<E: 'static + Send>(event: E) -> BoxedEvent {
        BoxedEvent { inner: Box::new(event) }
    }

    /// Relies on `Any::type_id`: the key of the payload's dynamic type,
    /// which depends on the boxed value alone.
    #[verifier::external_body]
    pub fn type_key(&self) -> (r: TypeId)
        ensures
            r == event_key_of(*self),
    {
        self.inner.as_ref().type_id()
    }
}

/// Relies on `TypeId::of`: the key of the type `E`.
#[verifier::external_body]
fn key_of<E: 'static + Send>() -> TypeId {
    TypeId::of::<E>()
}

/// Relies on `TypeId`'s `PartialEq`, which compares type identity: the
/// comparison agrees with equality of the opaque values.
#[verifier::external_body]
fn key_eq(a: &TypeId, b: &TypeId) -> (r: bool)
    ensures
        r == (a == b),
{
    a == b
}

/// Relies on `Box::downcast`: unwraps a queued payload back to `E`, or
/// returns `None` when the payload is of another type. Total: it
/// returns on every input and never panics.
#[verifier::external_body]
fn downcast_event<E: 'static + Send>(event: BoxedEvent) -> Option<E> {
    match event.inner.downcast::<E>() {
        Ok(payload) => Some(*payload),
        Err(_) => None,
    }
}

struct EventQueue {
    key: TypeId,
    items: Vec<BoxedEvent>,
}

/// Message bus holding one queue per event type until systems drain it.
/// The channel is unbounded and never expires entries.
pub struct EventBus {
    queues: Vec<EventQueue>,
}

impl EventBus {
    /// Queue keys are pairwise distinct, and every event sits in the
    /// queue keyed by its payload's own dynamic type.
    pub closed spec fn wf(self) -> bool {
        &&& forall|i: int, j: int|
            0 <= i < j < self.queues@.len() ==> (#[trigger] self.queues@[i]).key
                != (#[trigger] self.queues@[j]).key
        &&& forall|i: int, j: int|
            0 <= i < self.queues@.len() && 0 <= j < self.queues@[i].items@.len()
                ==> event_key_of(#[trigger] self.queues@[i].items@[j]) == self.queues@[i].key
    }

    /// Whether any events are queued under `key`.
    pub closed spec fn has_queue(self, key: TypeId) -> bool {
        exists|i: int| 0 <= i < self.queues@.len() && (#[trigger] self.queues@[i]).key == key
    }

    /// The index of `key`'s queue (meaningful when `has_queue` holds).
    closed spec fn queue_index(self, key: TypeId) -> int {
        choose|i: int| 0 <= i < self.queues@.len() && (#[trigger] self.queues@[i]).key == key
    }

    /// The events queued under `key`, in publication order (meaningful
    /// when `has_queue` holds).
    pub closed spec fn queue(self, key: TypeId) -> Seq<BoxedEvent> {
        self.queues@[self.queue_index(key)].items@
    }

    /// With distinct keys, any index holding `key` is the chosen one.
    proof fn lemma_queue_index(self, key: TypeId, i: int)
        requires
            self.wf(),
            0 <= i < self.queues@.len(),
            self.queues@[i].key == key,
        ensures
            self.has_queue(key),
            self.queue_index(key) == i,
            self.queue(key) == self.queues@[i].items@,
    {
        assert(self.has_queue(key));
        let j = self.queue_index(key);
        if i < j {
            assert(self.queues@[i].key != self.queues@[j].key);
        } else if j < i {
            assert(self.queues@[j].key != self.queues@[i].key);
        }
    }

    pub fn new() -> (r: Self)
        ensures
            r.wf(),
            forall|key: TypeId| !r.has_queue(key),
    {
        EventBus { queues: Vec::new() }
    }

    /// Appends `event` to the queue under `key`, creating the queue if
    /// none exists yet. The event must carry that key as its payload's
    /// own type key, so every queue keeps holding its own type only.
    fn publish_keyed(&mut self, key: TypeId, event: BoxedEvent)
        requires
            old(self).wf(),
            event_key_of(event) == key,
        ensures
            final(self).wf(),
            final(self).has_queue(key),
            final(self).queue(key) == if old(self).has_queue(key) {
                old(self).queue(key).push(event)
            } else {
                Seq::<BoxedEvent>::empty().push(event)
            },
            forall|k: TypeId| k != key ==> final(self).has_queue(k) == old(self).has_queue(k),
            forall|k: TypeId|
                k != key && old(self).has_queue(k) ==> final(self).queue(k) == old(self).queue(k),
    {
        let n = self.queues.len();
        let mut i: usize = 0;
        while i < n
            invariant
                n == self.queues@.len(),
                i <= n,
                *self == *old(self),
                old(self).wf(),
                event_key_of(event) == key,
                forall|j: int| 0 <= j < i ==> (#[trigger] self.queues@[j]).key != key,
            decreases n - i,
        {
            if key_eq(&self.queues[i].key, &key) {
                let ghost s_old = self.queues@;
                let mut entry = self.queues.remove(i);
                entry.items.push(event);
                self.queues.insert(i, entry);
                proof {
                    let s_new = self.queues@;
                    assert(s_new =~= s_old.update(i as int, entry));
                    old(self).lemma_queue_index(key, i as int);
                    assert(final(self).wf()) by {
                        assert forall|a: int, b: int|
                            0 <= a < b < s_new.len() implies s_new[a].key != s_new[b].key by {
                            assert(s_new[a].key == s_old[a].key);
                            assert(s_new[b].key == s_old[b].key);
                        }
                        assert forall|a: int, b: int|
                            0 <= a < s_new.len() && 0 <= b < s_new[a].items@.len()
                                implies event_key_of(#[trigger] s_new[a].items@[b])
                                == s_new[a].key by {
                            if a == i {
                                assert(s_new[a] == entry);
                                assert(entry.key == s_old[i as int].key);
                                assert(entry.items@ == s_old[i as int].items@.push(event));
                                if b < s_old[a].items@.len() {
                                    assert(s_new[a].items@[b] == s_old[a].items@[b]);
                                    assert(event_key_of(s_old[a].items@[b]) == s_old[a].key);
                                } else {
                                    assert(s_new[a].items@[b] == event);
                                }
                            } else {
                                assert(s_new[a] == s_old[a]);
                                assert(event_key_of(s_old[a].items@[b]) == s_old[a].key);
                            }
                        }
                    }
                    final(self).lemma_queue_index(key, i as int);
                    assert forall|k: TypeId|
                        k != key implies final(self).has_queue(k) == old(self).has_queue(k) by {
                        if final(self).has_queue(k) {
                            let j = final(self).queue_index(k);
                            final(self).lemma_queue_index(k, j);
                            assert(s_old[j].key == k);
                        }
                        if old(self).has_queue(k) {
                            let j = old(self).queue_index(k);
                            old(self).lemma_queue_index(k, j);
                            assert(s_new[j].key == k);
                        }
                    }
                    assert forall|k: TypeId|
                        k != key && old(self).has_queue(k) implies final(self).queue(k) == old(
                        self,
                    ).queue(k) by {
                        let j = old(self).queue_index(k);
                        old(self).lemma_queue_index(k, j);
                        assert(s_new[j].key == k && s_new[j].items == s_old[j].items);
                        final(self).lemma_queue_index(k, j);
                    }
                }
                return ;
            }
            i += 1;
        }
        let ghost s_old = self.queues@;
        let mut items: Vec<BoxedEvent> = Vec::new();
        items.push(event);
        self.queues.push(EventQueue { key, items });
        proof {
            let s_new = self.queues@;
            assert(!old(self).has_queue(key));
            assert(s_new.last().key == key);
            assert(final(self).wf()) by {
                assert forall|a: int, b: int|
                    0 <= a < b < s_new.len() implies s_new[a].key != s_new[b].key by {
                    if b < s_new.len() - 1 {
                        assert(s_new[a] == s_old[a] && s_new[b] == s_old[b]);
                    } else {
                        assert(s_new[a] == s_old[a]);
                    }
                }
                assert forall|a: int, b: int|
                    0 <= a < s_new.len() && 0 <= b < s_new[a].items@.len()
                        implies event_key_of(#[trigger] s_new[a].items@[b]) == s_new[a].key by {
                    if a < s_new.len() - 1 {
                        assert(s_new[a] == s_old[a]);
                        assert(event_key_of(s_old[a].items@[b]) == s_old[a].key);
                    } else {
                        assert(s_new[a].items@[b] == event);
                    }
                }
            }
            final(self).lemma_queue_index(key, s_old.len() as int);
            assert forall|k: TypeId|
                k != key implies final(self).has_queue(k) == old(self).has_queue(k) by {
                if final(self).has_queue(k) {
                    let j = final(self).queue_index(k);
                    final(self).lemma_queue_index(k, j);
                    assert(j < s_old.len());
                    assert(s_old[j].key == k);
                }
                if old(self).has_queue(k) {
                    let j = old(self).queue_index(k);
                    old(self).lemma_queue_index(k, j);
                    assert(s_new[j].key == k);
                }
            }
            assert forall|k: TypeId|
                k != key && old(self).has_queue(k) implies final(self).queue(k) == old(
                self,
            ).queue(k) by {
                let j = old(self).queue_index(k);
                old(self).lemma_queue_index(k, j);
                assert(s_new[j] == s_old[j]);
                final(self).lemma_queue_index(k, j);
            }
        }
    }

    /// Removes and returns the whole queue under `key`, in publication
    /// order; queues under other keys are untouched. Every returned
    /// event carries `key` as its payload's own type key.
    pub fn drain_keyed(&mut self, key: &TypeId) -> (r: Vec<BoxedEvent>)
        requires
            old(self).wf(),
        ensures
            final(self).wf(),
            !final(self).has_queue(*key),
            old(self).has_queue(*key) ==> r@ == old(self).queue(*key),
            !old(self).has_queue(*key) ==> r@ == Seq::<BoxedEvent>::empty(),
            forall|j: int| 0 <= j < r@.len() ==> event_key_of(#[trigger] r@[j]) == *key,
            forall|k: TypeId| k != *key ==> final(self).has_queue(k) == old(self).has_queue(k),
            forall|k: TypeId|
                k != *key && old(self).has_queue(k) ==> final(self).queue(k) == old(self).queue(k),
    {
        let n = self.queues.len();
        let mut i: usize = 0;
        while i < n
            invariant
                n == self.queues@.len(),
                i <= n,
                *self == *old(self),
                old(self).wf(),
                forall|j: int| 0 <= j < i ==> (#[trigger] self.queues@[j]).key != *key,
            decreases n - i,
        {
            if key_eq(&self.queues[i].key, key) {
                let ghost s_old = self.queues@;
                let entry = self.queues.remove(i);
                proof {
                    let s_new = self.queues@;
                    assert(s_new =~= s_old.remove(i as int));
                    old(self).lemma_queue_index(*key, i as int);
                    assert(final(self).wf()) by {
                        assert forall|a: int, b: int|
                            0 <= a < b < s_new.len() implies s_new[a].key != s_new[b].key by {
                            lemma_queue_remove_pointwise(s_old, i as int, a);
                            lemma_queue_remove_pointwise(s_old, i as int, b);
                        }
                        assert forall|a: int, b: int|
                            0 <= a < s_new.len() && 0 <= b < s_new[a].items@.len()
                                implies event_key_of(#[trigger] s_new[a].items@[b])
                                == s_new[a].key by {
                            lemma_queue_remove_pointwise(s_old, i as int, a);
                            if a < i {
                                assert(event_key_of(s_old[a].items@[b]) == s_old[a].key);
                            } else {
                                assert(event_key_of(s_old[a + 1].items@[b]) == s_old[a + 1].key);
                            }
                        }
                    }
                    assert(forall|j: int|
                        0 <= j < entry.items@.len() ==> event_key_of(#[trigger] entry.items@[j])
                            == *key);
                    assert(!final(self).has_queue(*key)) by {
                        if final(self).has_queue(*key) {
                            let j = final(self).queue_index(*key);
                            final(self).lemma_queue_index(*key, j);
                            lemma_queue_remove_pointwise(s_old, i as int, j);
                            if j < i {
                                assert(s_old[j].key == *key);
                            } else {
                                assert(s_old[j + 1].key == *key);
                                old(self).lemma_queue_index(*key, j + 1);
                            }
                        }
                    }
                    assert forall|k: TypeId|
                        k != *key implies final(self).has_queue(k) == old(self).has_queue(k) by {
                        if final(self).has_queue(k) {
                            let j = final(self).queue_index(k);
                            final(self).lemma_queue_index(k, j);
                            lemma_queue_remove_pointwise(s_old, i as int, j);
                            if j < i {
                                old(self).lemma_queue_index(k, j);
                            } else {
                                old(self).lemma_queue_index(k, j + 1);
                            }
                        }
                        if old(self).has_queue(k) {
                            let j = old(self).queue_index(k);
                            old(self).lemma_queue_index(k, j);
                            if j < i {
                                lemma_queue_remove_pointwise(s_old, i as int, j);
                                final(self).lemma_queue_index(k, j);
                            } else {
                                assert(j > i);
                                lemma_queue_remove_pointwise(s_old, i as int, j - 1);
                                final(self).lemma_queue_index(k, j - 1);
                            }
                        }
                    }
                    assert forall|k: TypeId|
                        k != *key && old(self).has_queue(k) implies final(self).queue(k) == old(
                        self,
                    ).queue(k) by {
                        let j = old(self).queue_index(k);
                        old(self).lemma_queue_index(k, j);
                        if j < i {
                            lemma_queue_remove_pointwise(s_old, i as int, j);
                            final(self).lemma_queue_index(k, j);
                        } else {
                            assert(j > i);
                            lemma_queue_remove_pointwise(s_old, i as int, j - 1);
                            final(self).lemma_queue_index(k, j - 1);
                        }
                    }
                }
                return entry.items;
            }
            i += 1;
        }
        Vec::new()
    }

    /// Publishes a new event instance onto the bus: some box of it is
    /// appended to the queue keyed by its payload's own type. Which
    /// `TypeId` a Rust type has is opaque, so the box itself is the only
    /// witness; [`EventBus::publish_boxed`] and [`EventBus::drain_keyed`]
    /// carry the same statement with the key fully pinned.
    pub fn publish<E: 'static + Send>(&mut self, event: E)
        requires
            old(self).wf(),
        ensures
            final(self).wf(),
            exists|boxed: BoxedEvent|
                #![trigger event_key_of(boxed)]
                {
                    let key = event_key_of(boxed);
                    &&& final(self).has_queue(key)
                    &&& final(self).queue(key) == (if old(self).has_queue(key) {
                        old(self).queue(key)
                    } else {
                        Seq::<BoxedEvent>::empty()
                    }).push(boxed)
                    &&& forall|k: TypeId|
                        k != key ==> final(self).has_queue(k) == old(self).has_queue(k)
                    &&& forall|k: TypeId|
                        k != key && old(self).has_queue(k) ==> final(self).queue(k) == old(
                            self,
                        ).queue(k)
                },
    {
        let boxed = BoxedEvent::of(event);
        self.publish_boxed(boxed);
    }

    /// Publishes an already boxed event: it is appended to the queue
    /// keyed by its payload's own dynamic type; every other queue is
    /// untouched.
    pub fn publish_boxed(&mut self, event: BoxedEvent)
        requires
            old(self).wf(),
        ensures
            final(self).wf(),
            final(self).has_queue(event_key_of(event)),
            final(self).queue(event_key_of(event)) == (if old(self).has_queue(
                event_key_of(event),
            ) {
                old(self).queue(event_key_of(event))
            } else {
                Seq::<BoxedEvent>::empty()
            }).push(event),
            forall|k: TypeId|
                k != event_key_of(event) ==> final(self).has_queue(k) == old(self).has_queue(k),
            forall|k: TypeId|
                k != event_key_of(event) && old(self).has_queue(k) ==> final(self).queue(k) == old(
                    self,
                ).queue(k),
    {
        let key = event.type_key();
        self.publish_keyed(key, event);
    }

    /// Drains all pending events of type `E`, in publication order;
    /// queues of other types are untouched. The queue removed is the one
    /// keyed by `E`'s `TypeId`; which `TypeId` that is stays opaque, so
    /// the contract quantifies over it — [`EventBus::drain_keyed`] pins
    /// the drained content exactly for a caller holding the key.
    pub fn drain<E: 'static + Send>(&mut self) -> (r: Vec<E>)
        requires
            old(self).wf(),
        ensures
            final(self).wf(),
            exists|key: TypeId|
                {
                    &&& !#[trigger] final(self).has_queue(key)
                    &&& r@.len() <= (if old(self).has_queue(key) {
                        old(self).queue(key).len()
                    } else {
                        0
                    })
                    &&& forall|k: TypeId|
                        k != key ==> final(self).has_queue(k) == old(self).has_queue(k)
                    &&& forall|k: TypeId|
                        k != key && old(self).has_queue(k) ==> final(self).queue(k) == old(
                            self,
                        ).queue(k)
                },
    {
        let key = key_of::<E>();
        let items = self.drain_keyed(&key);
        let ghost drained = items@;
        let mut out: Vec<E> = Vec::new();
        let count = items.len();
        let mut consumed = items;
        let mut i: usize = 0;
        while i < count
            invariant
                count == drained.len(),
                i <= count,
                out@.len() <= i,
                consumed@ == drained.skip(i as int),
            decreases count - i,
        {
            let ghost before = consumed@;
            let event = consumed.remove(0);
            proof {
                assert(consumed@ =~= drained.skip(i + 1 as int));
            }
            match downcast_event::<E>(event) {
                Some(payload) => {
                    out.push(payload);
                },
                None => {},
            }
            i += 1;
        }
        out
    }

    /// Discards every queued event of every type.
    pub fn clear(&mut self)
        ensures
            final(self).wf(),
            forall|key: TypeId| !final(self).has_queue(key),
    {
        self.queues.clear();
    }
}

/// Where each element of `s.remove(at)` comes from in `s`.
proof fn lemma_queue_remove_pointwise(s: Seq<EventQueue>, at: int, j: int)
    requires
        0 <= at < s.len(),
        0 <= j < s.len() - 1,
    ensures
        s.remove(at)[j] == if j < at {
            s[j]
        } else {
            s[j + 1]
        },
{
}

} // verus!
