//! The runtime: owner of all signals and effects, and of the protocol that
//! re-runs an effect when a signal it read is written.

use crate::graph::Graph;
use crate::signal::Signal;
use crate::slots::SLOT_LIMIT;
use crate::store::Store;
use vstd::prelude::*;

verus! {

/// A side-effecting computation that the runtime executes once when it is
/// registered and again whenever a signal that it read in its latest
/// execution is written.
///
/// `run` promises nothing, so nothing is assumed of an implementation. One
/// that states an `ensures` of its own is taken at its word: the contracts of
/// the operations that run effects say what they leave in terms of it.
pub trait Effect<V>: Sized {
    /// One execution. The runtime calls this on the body that was registered
    /// for the effect, with the effect marked as running and with every edge
    /// of its earlier executions removed, so the signals read in this call are
    /// exactly the ones the effect ends up subscribed to.
    fn run(&self, rt: &mut Runtime<V, Self>)
        requires
            old(rt)@.wf(),
            old(rt)@.running is Some,
            old(rt)@.fresh_run(old(rt)@.running->0),
            old(rt).bodies()[old(rt)@.running->0] == *self,
    ;
}

/// A reactive runtime over signals of type `V` and effects of type `B`.
///
/// The state is always well formed, also when an effect body hands the
/// runtime back: the invariant belongs to the type.
pub struct Runtime<V, B> {
    store: Store<V, B>,
}

impl<V, B> Runtime<V, B> {
    /// This runtime is what the end of a run makes of `back`, the runtime as
    /// a body handed it back: no effect is running, all else is as in `back`.
    pub open spec fn left_by(&self, back: Self) -> bool {
        &&& self@ == back@.end_run()
        &&& self.bodies() == back.bodies()
    }

    #[verifier::type_invariant]
    spec fn inv(&self) -> bool {
        self.store.wf()
    }

    /// The state of the runtime as a graph.
    pub closed spec fn view(&self) -> Graph<V> {
        self.store@
    }

    /// The body of each effect.
    pub closed spec fn bodies(&self) -> Map<u64, B> {
        self.store.bodies()
    }

    /// A runtime without signals or effects.
    pub fn new() -> (rt: Self)
        ensures
            rt@ == Graph::<V>::empty(),
            rt@.wf(),
            rt.bodies().dom() == Set::<u64>::empty(),
    {
        let store = Store::new();
        proof {
            store.lemma_wf();
        }
        Runtime { store }
    }

    /// Moves the state out so that a step can work on it. An empty state
    /// stands in until the caller stores the result back; if the step unwinds,
    /// which only a closure of the caller can make it do, the runtime is left
    /// empty.
    fn take(&mut self) -> (store: Store<V, B>)
        ensures
            store == old(self).store,
            store.wf(),
            store@.wf(),
    {
        proof {
            use_type_invariant(&*self);
            self.store.lemma_wf();
        }
        let mut store = Store::new();
        std::mem::swap(&mut self.store, &mut store);
        store
    }

    /// The number of signals.
    pub fn signal_count(&self) -> (n: usize)
        ensures
            n == self@.subscribers.dom().len(),
    {
        proof {
            use_type_invariant(self);
        }
        self.store.signal_count()
    }

    /// The number of effects.
    pub fn effect_count(&self) -> (n: usize)
        ensures
            n == self@.subscriptions.dom().len(),
    {
        proof {
            use_type_invariant(self);
        }
        self.store.effect_count()
    }

    /// Whether this runtime has a signal with the id of `signal`.
    ///
    /// Only the id is tested. A handle does not record which runtime made
    /// it, and every runtime hands out the same ids in the same order, so a
    /// handle that another runtime made passes this test as soon as this
    /// runtime has made as many signals. Use a handle with the runtime that
    /// made it.
    pub fn contains(&self, signal: Signal<V>) -> (b: bool)
        ensures
            b == self@.has_signal(signal.key()),
            self@.wf(),
    {
        proof {
            use_type_invariant(self);
            self.store.lemma_wf();
        }
        self.store.has_signal(signal.id())
    }

    /// Stores `value` as a new signal without subscribers and returns its
    /// handle.
    pub fn create_signal(&mut self, value: V) -> (signal: Signal<V>)
        requires
            old(self)@.subscribers.dom().len() < SLOT_LIMIT,
        ensures
            !old(self)@.has_signal(signal.key()),
            final(self)@ == old(self)@.add_signal(signal.key(), value),
            final(self).bodies() == old(self).bodies(),
            final(self)@.wf(),
    {
        let mut store = self.take();
        let id = store.add_signal(value);
        proof {
            store.lemma_wf();
        }
        self.store = store;
        Signal::from_key(id)
    }

    /// Like `create_signal`, but hands `value` back when the runtime has no
    /// room for another signal.
    pub fn try_create_signal(&mut self, value: V) -> (result: Result<Signal<V>, V>)
        ensures
            match result {
                Ok(signal) => {
                    &&& old(self)@.subscribers.dom().len() < SLOT_LIMIT
                    &&& !old(self)@.has_signal(signal.key())
                    &&& final(self)@ == old(self)@.add_signal(signal.key(), value)
                },
                Err(rejected) => {
                    &&& old(self)@.subscribers.dom().len() >= SLOT_LIMIT
                    &&& rejected == value
                    &&& final(self)@ == old(self)@
                },
            },
            final(self).bodies() == old(self).bodies(),
            final(self)@.wf(),
    {
        if self.signal_count() < SLOT_LIMIT {
            Ok(self.create_signal(value))
        } else {
            proof {
                use_type_invariant(&*self);
                self.store.lemma_wf();
            }
            Err(value)
        }
    }

    /// The current value of a signal, read without recording a dependency.
    pub(crate) fn value(&self, signal: u64) -> (value: &V)
        requires
            self@.has_signal(signal),
        ensures
            *value == self@.values[signal],
    {
        proof {
            use_type_invariant(self);
        }
        self.store.value(signal)
    }

    /// Records a read of `signal` by the running effect, if there is one.
    pub(crate) fn track(&mut self, signal: u64)
        requires
            old(self)@.has_signal(signal),
        ensures
            final(self)@ == old(self)@.track(signal),
            final(self).bodies() == old(self).bodies(),
            final(self)@.wf(),
    {
        if self.store.is_tracking() {
            let mut store = self.take();
            store.track(signal);
            proof {
                store.lemma_wf();
            }
            self.store = store;
        } else {
            proof {
                use_type_invariant(&*self);
                self.store.lemma_wf();
            }
        }
    }

    /// Overwrites the value of `signal`; no effect runs.
    pub(crate) fn write(&mut self, signal: u64, value: V)
        requires
            old(self)@.has_signal(signal),
        ensures
            final(self)@ == old(self)@.write(signal, value),
            final(self).bodies() == old(self).bodies(),
            final(self)@.wf(),
    {
        let mut store = self.take();
        store.write(signal, value);
        proof {
            store.lemma_wf();
        }
        self.store = store;
    }

    /// Replaces the value of `signal` by what `f` makes of it; no effect
    /// runs. If `f` unwinds, the runtime is left empty.
    pub(crate) fn replace_with<F: FnOnce(V) -> V>(&mut self, signal: u64, f: F)
        requires
            old(self)@.has_signal(signal),
            f.requires((old(self)@.values[signal],)),
        ensures
            f.ensures((old(self)@.values[signal],), final(self)@.values[signal]),
            final(self)@ == old(self)@.write(signal, final(self)@.values[signal]),
            final(self).bodies() == old(self).bodies(),
            final(self)@.wf(),
    {
        let mut store = self.take();
        store.replace_with(signal, f);
        proof {
            store.lemma_wf();
        }
        self.store = store;
    }

    /// Lets `f` change the value of `signal` in place; no effect runs. If `f`
    /// unwinds, the runtime is left empty.
    pub(crate) fn modify<F: FnOnce(&mut V)>(&mut self, signal: u64, f: F)
        requires
            old(self)@.has_signal(signal),
            forall|slot: &mut V|
                *slot == old(self)@.values[signal] ==> #[trigger] f.requires((slot,)),
        ensures
            exists|slot: &mut V|
                #![trigger f.ensures((slot,), ())]
                *slot == old(self)@.values[signal]
                    && *final(slot) == final(self)@.values[signal]
                    && f.ensures((slot,), ()),
            final(self)@ == old(self)@.write(signal, final(self)@.values[signal]),
            final(self).bodies() == old(self).bodies(),
            final(self)@.wf(),
    {
        let mut store = self.take();
        store.modify(signal, f);
        proof {
            store.lemma_wf();
        }
        self.store = store;
    }
}

impl<V, B: Effect<V>> Runtime<V, B> {
    /// A run of `effect` that starts from this runtime has handed `r` to the
    /// body registered for `effect`: `r` is this runtime with `effect` marked
    /// as running and its edges removed, and the body has run on `r`. What
    /// the body may leave in `r` is what its own `ensures` allows.
    pub open spec fn enters(&self, effect: u64, r: &mut Self) -> bool {
        &&& r@ == self@.begin_run(effect)
        &&& r.bodies() == self.bodies()
        &&& call_ensures(B::run, (&self.bodies()[effect], r), ())
    }

    /// `order` holds the subscribers of `signal` in `first` once each, and
    /// `states` holds the runtime before and after each of their turns, from
    /// `first` to `last`.
    pub open spec fn paces(
        order: Seq<u64>,
        states: Seq<Self>,
        first: Self,
        last: Self,
        signal: u64,
    ) -> bool {
        &&& order.no_duplicates()
        &&& order.to_set() == first@.subscribers[signal]
        &&& states.len() == order.len() + 1
        &&& states[0] == first
        &&& states[order.len() as int] == last
    }

    /// Registers `effect` and executes it once, at once: the effect gets a
    /// new id, its body is handed the runtime with the effect marked as
    /// running and without any edge, and what the body hands back is left
    /// with no effect running. Everything that the body does is done when
    /// this returns; what that is, the body's own `ensures` says.
    ///
    /// In the contract, `mid` is the runtime with the effect registered and
    /// not yet run, and `r` is the runtime as the body receives it and hands
    /// it back.
    pub fn create_effect(&mut self, effect: B)
        requires
            old(self)@.subscriptions.dom().len() < SLOT_LIMIT,
        ensures
            exists|id: u64, mid: Self, r: &mut Self|
                #![trigger mid.enters(id, r)]
                !old(self)@.has_effect(id)
                    && mid@ == old(self)@.add_effect(id)
                    && mid.bodies() == old(self).bodies().insert(id, effect)
                    && mid.enters(id, r)
                    && final(self).left_by(*final(r)),
            final(self)@.running is None,
            final(self)@.wf(),
    {
        let mut store = self.take();
        let id = store.add_effect(effect);
        self.store = store;
        let ghost mid = *self;
        assert(mid@ == old(self)@.add_effect(id));
        assert(mid.bodies() == old(self).bodies().insert(id, effect));
        self.run_effect(id);
    }

    /// Like `create_effect`, but hands `effect` back, without running it,
    /// when the runtime has no room for another effect.
    pub fn try_create_effect(&mut self, effect: B) -> (result: Result<(), B>)
        ensures
            match result {
                Ok(_) => {
                    &&& old(self)@.subscriptions.dom().len() < SLOT_LIMIT
                    &&& exists|id: u64, mid: Self, r: &mut Self|
                        #![trigger mid.enters(id, r)]
                        !old(self)@.has_effect(id)
                            && mid@ == old(self)@.add_effect(id)
                            && mid.bodies() == old(self).bodies().insert(id, effect)
                            && mid.enters(id, r)
                            && final(self).left_by(*final(r))
                    &&& final(self)@.running is None
                },
                Err(rejected) => {
                    &&& old(self)@.subscriptions.dom().len() >= SLOT_LIMIT
                    &&& rejected == effect
                    &&& *final(self) == *old(self)
                },
            },
            final(self)@.wf(),
    {
        if self.effect_count() < SLOT_LIMIT {
            self.create_effect(effect);
            Ok(())
        } else {
            proof {
                use_type_invariant(&*self);
                self.store.lemma_wf();
            }
            Err(effect)
        }
    }

    /// One run of an effect: mark it as running, drop the edges of its
    /// earlier runs, execute its body, and clear the mark.
    ///
    /// In the contract, `r` is the runtime as the body receives it and hands
    /// it back: the body registered for `effect` has run on it, once.
    pub(crate) fn run_effect(&mut self, effect: u64)
        requires
            old(self)@.has_effect(effect),
        ensures
            exists|r: &mut Self|
                #![trigger old(self).enters(effect, r)]
                #![trigger call_ensures(B::run, (&old(self).bodies()[effect], r), ())]
                old(self).enters(effect, r) && final(self).left_by(*final(r)),
            final(self)@.running is None,
            final(self)@.wf(),
    {
        let mut store = self.take();
        let ghost before = store@;
        store.begin_run(effect);
        let body = store.body(effect);
        proof {
            before.lemma_begin_run_fresh(effect);
            old(self).store.lemma_wf();
        }
        self.store = store;
        assert(*body == old(self).bodies()[effect]);
        assert(self@ == old(self)@.begin_run(effect));
        assert(self.bodies() == old(self).bodies());
        body.run(self);
        let ghost back = *self;
        let mut store = self.take();
        store.end_run();
        proof {
            store.lemma_wf();
        }
        self.store = store;
        assert(self@ == back@.end_run());
        assert(self.bodies() == back.bodies());
    }

    /// Re-runs every effect that subscribes to `signal` at the moment of the
    /// call, each once, in the order in which the subscriber set hands them
    /// out. The list is taken before the first re-run, so what the bodies do
    /// to the subscriber set neither adds a re-run nor drops one. A re-run is
    /// complete, with every re-run that its body caused, before the next one
    /// starts.
    ///
    /// In the contract, `order` is that list and `states` holds the runtime
    /// before and after each turn. A turn is one run of the effect, as
    /// `run_effect` makes it. What a body leaves is known only as far as its
    /// own `ensures` says, so each effect is looked up again when its turn
    /// comes: if it is no effect any more, its turn changes nothing. No
    /// operation of this library removes an effect.
    pub(crate) fn notify(&mut self, signal: u64)
        requires
            old(self)@.has_signal(signal),
        ensures
            exists|order: Seq<u64>, states: Seq<Self>|
                #![trigger Self::paces(order, states, *old(self), *final(self), signal)]
                Self::paces(order, states, *old(self), *final(self), signal) && forall|i: int|
                    #![trigger order[i]]
                    0 <= i < order.len() ==> if states[i]@.has_effect(order[i]) {
                        exists|r: &mut Self|
                            #![trigger states[i].enters(order[i], r)]
                            states[i].enters(order[i], r) && states[i + 1].left_by(*final(r))
                    } else {
                        states[i + 1] == states[i]
                    },
            old(self)@.subscribers[signal].is_empty() ==> *final(self) == *old(self),
            !old(self)@.subscribers[signal].is_empty() ==> final(self)@.running is None,
            final(self)@.wf(),
    {
        proof {
            use_type_invariant(&*self);
            self.store.lemma_wf();
        }
        let effects = self.store.subscribers_of(signal);
        let ghost before = self@;
        let ghost mut states: Seq<Self> = seq![*self];
        let mut i: usize = 0;
        while i < effects.len()
            invariant
                i <= effects.len(),
                before == old(self)@,
                before.wf(),
                before.has_signal(signal),
                effects@.to_set() == before.subscribers[signal],
                i == 0 ==> *self == *old(self),
                i > 0 ==> self@.running is None,
                self@.wf(),
                states.len() == i + 1,
                states[0] == *old(self),
                states[i as int] == *self,
                forall|k: int|
                    #![trigger effects@[k]]
                    0 <= k < i ==> if states[k]@.has_effect(effects@[k]) {
                        exists|r: &mut Self|
                            #![trigger states[k].enters(effects@[k], r)]
                            states[k].enters(effects@[k], r) && states[k + 1].left_by(*final(r))
                    } else {
                        states[k + 1] == states[k]
                    },
            decreases effects.len() - i,
        {
            let effect = effects[i];
            proof {
                use_type_invariant(&*self);
                if i == 0 {
                    assert(effects@.to_set().contains(effect));
                    assert(before.notifies(signal, effect));
                    assert(before.reads(effect, signal));
                }
            }
            if self.store.has_effect(effect) {
                self.run_effect(effect);
            } else {
                proof {
                    assert(i > 0);
                }
            }
            proof {
                states = states.push(*self);
            }
            i += 1;
        }
        proof {
            if effects@.len() == 0 {
                assert(before.subscribers[signal] =~= Set::empty());
            } else {
                assert(effects@.to_set().contains(effects@[0]));
            }
            assert(Self::paces(effects@, states, *old(self), *self, signal));
        }
    }
}

} // verus!
