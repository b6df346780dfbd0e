//! Handles to signals.

use crate::runtime::{Effect, Runtime};
use std::marker::PhantomData;
use vstd::prelude::*;

verus! {

/// A handle to a signal of a runtime: a mutable cell whose reads are tracked
/// and whose writes re-run the effects that depend on it.
///
/// A handle is a plain id. Copies of a handle name the same signal. A handle
/// does not record which runtime made it: used with another runtime it names
/// whatever signal has the same id there, if there is one.
pub struct Signal<V> {
    id: u64,
    phantom: PhantomData<V>,
}

impl<V> Clone for Signal<V> {
    fn clone(&self) -> (copy: Self)
        ensures
            copy == *self,
    {
        Signal { id: self.id, phantom: PhantomData }
    }
}

impl<V> Copy for Signal<V> {}

impl<V> Signal<V> {
    /// The id of the signal in the graph of its runtime.
    pub closed spec fn key(&self) -> u64 {
        self.id
    }

    pub(crate) fn from_key(id: u64) -> (signal: Self)
        ensures
            signal.key() == id,
    {
        Signal { id, phantom: PhantomData }
    }

    /// The id of the signal.
    pub fn id(&self) -> (id: u64)
        ensures
            id == self.key(),
    {
        self.id
    }

    /// Reads the signal. If an effect is running, it becomes a subscriber of
    /// the signal.
    pub fn get<'a, B>(&self, rt: &'a mut Runtime<V, B>) -> (value: &'a V)
        requires
            old(rt)@.has_signal(self.key()),
        ensures
            *value == old(rt)@.values[self.key()],
            final(rt)@ == old(rt)@.track(self.key()),
            final(rt).bodies() == old(rt).bodies(),
            final(rt)@.wf(),
    {
        rt.track(self.id);
        rt.value(self.id)
    }

    /// Re-runs the effects that subscribe to this signal: see
    /// `Runtime::notify`.
    fn rerun_subs<B: Effect<V>>(&self, rt: &mut Runtime<V, B>)
        requires
            old(rt)@.has_signal(self.key()),
        ensures
            exists|order: Seq<u64>, states: Seq<Runtime<V, B>>|
                #![trigger Runtime::paces(order, states, *old(rt), *final(rt), self.key())]
                Runtime::paces(order, states, *old(rt), *final(rt), self.key()) && forall|i: int|
                    #![trigger order[i]]
                    0 <= i < order.len() ==> if states[i]@.has_effect(order[i]) {
                        exists|r: &mut Runtime<V, B>|
                            #![trigger states[i].enters(order[i], r)]
                            states[i].enters(order[i], r) && states[i + 1].left_by(*final(r))
                    } else {
                        states[i + 1] == states[i]
                    },
            old(rt)@.subscribers[self.key()].is_empty() ==> *final(rt) == *old(rt),
            !old(rt)@.subscribers[self.key()].is_empty() ==> final(rt)@.running is None,
            final(rt)@.wf(),
    {
        rt.notify(self.id);
    }

    /// Writes `value` to the signal, then re-runs its subscribers as
    /// `Runtime::notify` does. The write itself records no dependency.
    ///
    /// The contract names the runtime `mid` between the two: it holds the
    /// new value and is otherwise as before. From `mid` the subscribers take
    /// their turns in `order`, through `states`, to the final runtime.
    pub fn set<B: Effect<V>>(&self, rt: &mut Runtime<V, B>, value: V)
        requires
            old(rt)@.has_signal(self.key()),
        ensures
            exists|mid: Runtime<V, B>, order: Seq<u64>, states: Seq<Runtime<V, B>>|
                #![trigger Runtime::paces(order, states, mid, *final(rt), self.key())]
                mid@ == old(rt)@.write(self.key(), value) && mid.bodies() == old(rt).bodies()
                    && Runtime::paces(order, states, mid, *final(rt), self.key()) && forall|i: int|
                    #![trigger order[i]]
                    0 <= i < order.len() ==> if states[i]@.has_effect(order[i]) {
                        exists|r: &mut Runtime<V, B>|
                            #![trigger states[i].enters(order[i], r)]
                            states[i].enters(order[i], r) && states[i + 1].left_by(*final(r))
                    } else {
                        states[i + 1] == states[i]
                    },
            old(rt)@.subscribers[self.key()].is_empty() ==> {
                &&& final(rt)@ == old(rt)@.write(self.key(), value)
                &&& final(rt).bodies() == old(rt).bodies()
            },
            !old(rt)@.subscribers[self.key()].is_empty() ==> final(rt)@.running is None,
            final(rt)@.wf(),
    {
        rt.write(self.id, value);
        let ghost mid = *rt;
        self.rerun_subs(rt);
        assert(mid@.subscribers[self.key()] == old(rt)@.subscribers[self.key()]);
    }

    /// Replaces the value `x` of the signal by `f(x)`, then re-runs its
    /// subscribers once, as `Runtime::notify` does. Reading `x` records no
    /// dependency. If `f` unwinds, the runtime is left empty.
    ///
    /// In the contract `mid` is the runtime after `f` and before the first
    /// re-run, as for `set`.
    pub fn update<B: Effect<V>, F: FnOnce(V) -> V>(&self, rt: &mut Runtime<V, B>, f: F)
        requires
            old(rt)@.has_signal(self.key()),
            f.requires((old(rt)@.values[self.key()],)),
        ensures
            exists|mid: Runtime<V, B>, order: Seq<u64>, states: Seq<Runtime<V, B>>|
                #![trigger Runtime::paces(order, states, mid, *final(rt), self.key())]
                f.ensures((old(rt)@.values[self.key()],), mid@.values[self.key()])
                    && mid@ == old(rt)@.write(self.key(), mid@.values[self.key()])
                    && mid.bodies() == old(rt).bodies()
                    && Runtime::paces(order, states, mid, *final(rt), self.key()) && forall|i: int|
                    #![trigger order[i]]
                    0 <= i < order.len() ==> if states[i]@.has_effect(order[i]) {
                        exists|r: &mut Runtime<V, B>|
                            #![trigger states[i].enters(order[i], r)]
                            states[i].enters(order[i], r) && states[i + 1].left_by(*final(r))
                    } else {
                        states[i + 1] == states[i]
                    },
            old(rt)@.subscribers[self.key()].is_empty() ==> {
                &&& f.ensures((old(rt)@.values[self.key()],), final(rt)@.values[self.key()])
                &&& final(rt)@ == old(rt)@.write(self.key(), final(rt)@.values[self.key()])
                &&& final(rt).bodies() == old(rt).bodies()
            },
            !old(rt)@.subscribers[self.key()].is_empty() ==> final(rt)@.running is None,
            final(rt)@.wf(),
    {
        rt.replace_with(self.id, f);
        let ghost mid = *rt;
        self.rerun_subs(rt);
        assert(mid@.subscribers[self.key()] == old(rt)@.subscribers[self.key()]);
    }

    /// Lets `f` change the value of the signal in place, then re-runs its
    /// subscribers once, as `Runtime::notify` does. The value is not moved:
    /// `f` works on it where it is stored. If `f` unwinds, the runtime is left
    /// empty.
    ///
    /// In the contract `mid` is the runtime after `f` and before the first
    /// re-run, as for `set`.
    pub fn mutate_with<B: Effect<V>, F: FnOnce(&mut V)>(&self, rt: &mut Runtime<V, B>, f: F)
        requires
            old(rt)@.has_signal(self.key()),
            forall|slot: &mut V|
                *slot == old(rt)@.values[self.key()] ==> #[trigger] f.requires((slot,)),
        ensures
            exists|mid: Runtime<V, B>, order: Seq<u64>, states: Seq<Runtime<V, B>>|
                #![trigger Runtime::paces(order, states, mid, *final(rt), self.key())]
                (exists|slot: &mut V|
                    #![trigger f.ensures((slot,), ())]
                    *slot == old(rt)@.values[self.key()] && *final(slot) == mid@.values[self.key()]
                        && f.ensures((slot,), ()))
                    && mid@ == old(rt)@.write(self.key(), mid@.values[self.key()])
                    && mid.bodies() == old(rt).bodies()
                    && Runtime::paces(order, states, mid, *final(rt), self.key()) && forall|i: int|
                    #![trigger order[i]]
                    0 <= i < order.len() ==> if states[i]@.has_effect(order[i]) {
                        exists|r: &mut Runtime<V, B>|
                            #![trigger states[i].enters(order[i], r)]
                            states[i].enters(order[i], r) && states[i + 1].left_by(*final(r))
                    } else {
                        states[i + 1] == states[i]
                    },
            old(rt)@.subscribers[self.key()].is_empty() ==> {
                &&& exists|slot: &mut V|
                    #![trigger f.ensures((slot,), ())]
                    *slot == old(rt)@.values[self.key()]
                        && *final(slot) == final(rt)@.values[self.key()]
                        && f.ensures((slot,), ())
                &&& final(rt)@ == old(rt)@.write(self.key(), final(rt)@.values[self.key()])
                &&& final(rt).bodies() == old(rt).bodies()
            },
            !old(rt)@.subscribers[self.key()].is_empty() ==> final(rt)@.running is None,
            final(rt)@.wf(),
    {
        rt.modify(self.id, f);
        let ghost mid = *rt;
        self.rerun_subs(rt);
        assert(mid@.subscribers[self.key()] == old(rt)@.subscribers[self.key()]);
    }
}

} // verus!
