//! The concrete state of a runtime and the single steps that change it.

use crate::graph::{Graph, Step};
use crate::slots::{slot_sets, SlotTable, SLOT_LIMIT};
use std::collections::hash_map::Entry;
use std::collections::{HashMap, HashSet};
use std::rc::Rc;
use vstd::prelude::*;

verus! {

broadcast use vstd::std_specs::hash::group_hash_axioms;

/// `Rc::clone`: a second pointer to the same value.
#[verifier::external_body]
pub(crate) fn share<T>(pointer: &Rc<T>) -> (other: Rc<T>)
    ensures
        other == *pointer,
{
    Rc::clone(pointer)
}

/// The members of `set` as a vector, each exactly once, in the order in which
/// the set hands them out.
pub fn snapshot(set: &HashSet<u64>) -> (members: Vec<u64>)
    ensures
        members@.no_duplicates(),
        members@.to_set() == set@,
{
    let mut members: Vec<u64> = Vec::new();
    for member in it: set.iter()
        invariant
            members@ == it.seq().take(it.index() as int).unref(),
            it.seq().unref().to_set() == set@,
            it.seq().no_duplicates(),
            it.index() == it.seq().len() ==> members@ == it.seq().unref(),
    {
        members.push(*member);
        assert(it.seq().take(it.index() + 1).unref() =~= it.seq().take(
            it.index() as int,
        ).unref().push(*it.seq()[it.index() as int]));
        assert(it.index() + 1 == it.seq().len() ==> it.seq().take(it.index() + 1) =~= it.seq());
    }
    members
}

/// The tables of a runtime.
///
/// The subscription graph lives in two slot tables, which also hand out the
/// ids: one entry per signal holding its subscribers, one entry per effect
/// holding its subscriptions. Values and effect bodies are kept beside them
/// under the same ids.
pub struct Store<V, B> {
    signal_values: SlotTable,
    values: HashMap<u64, V>,
    effects: SlotTable,
    bodies: HashMap<u64, Rc<B>>,
    running_effect: Option<u64>,
}

impl<V, B> Store<V, B> {
    /// The state as a graph.
    pub closed spec fn view(&self) -> Graph<V> {
        Graph {
            values: self.values@,
            subscribers: slot_sets(self.signal_values),
            subscriptions: slot_sets(self.effects),
            running: self.running_effect,
        }
    }

    /// The body of each effect.
    pub closed spec fn bodies(&self) -> Map<u64, B> {
        Map::new(|e: u64| self.bodies@.contains_key(e), |e: u64| *self.bodies@[e])
    }

    /// The graph is well formed and every effect has a body.
    pub closed spec fn wf(&self) -> bool {
        &&& self@.wf()
        &&& self.bodies@.dom() =~= slot_sets(self.effects).dom()
    }

    /// What `wf` says in terms of the model.
    pub proof fn lemma_wf(&self)
        requires
            self.wf(),
        ensures
            self@.wf(),
            self.bodies().dom() == self@.subscriptions.dom(),
    {
        assert(self.bodies().dom() =~= self@.subscriptions.dom());
    }

    /// A store without signals or effects.
    pub fn new() -> (store: Self)
        ensures
            store.wf(),
            store@ == Graph::<V>::empty(),
            store.bodies().dom() == Set::<u64>::empty(),
    {
        let store = Store {
            signal_values: SlotTable::new(),
            values: HashMap::new(),
            effects: SlotTable::new(),
            bodies: HashMap::new(),
            running_effect: None,
        };
        assert(store@.subscribers =~= Map::empty());
        assert(store@.subscriptions =~= Map::empty());
        assert(store.bodies().dom() =~= Set::<u64>::empty());
        store
    }

    /// The number of signals.
    pub fn signal_count(&self) -> (n: usize)
        requires
            self.wf(),
        ensures
            n == self@.subscribers.dom().len(),
    {
        self.signal_values.len()
    }

    /// The number of effects.
    pub fn effect_count(&self) -> (n: usize)
        requires
            self.wf(),
        ensures
            n == self@.subscriptions.dom().len(),
    {
        self.effects.len()
    }

    /// Whether `signal` is the id of a signal.
    pub fn has_signal(&self, signal: u64) -> (b: bool)
        requires
            self.wf(),
        ensures
            b == self@.has_signal(signal),
    {
        self.values.contains_key(&signal)
    }

    /// Whether `effect` is the id of an effect.
    pub fn has_effect(&self, effect: u64) -> (b: bool)
        requires
            self.wf(),
        ensures
            b == self@.has_effect(effect),
    {
        self.bodies.contains_key(&effect)
    }

    /// Whether an effect is running, so that reads are recorded.
    pub fn is_tracking(&self) -> (b: bool)
        ensures
            b == (self@.running is Some),
    {
        self.running_effect.is_some()
    }

    /// Stores a new signal with no subscribers.
    pub fn add_signal(&mut self, value: V) -> (signal: u64)
        requires
            old(self).wf(),
            old(self)@.subscribers.dom().len() < SLOT_LIMIT,
        ensures
            final(self).wf(),
            !old(self)@.has_signal(signal),
            final(self)@ == old(self)@.add_signal(signal, value),
            final(self).bodies() == old(self).bodies(),
    {
        let signal = self.signal_values.insert(HashSet::new());
        self.values.insert(signal, value);
        proof {
            let before = old(self)@;
            let after = self@;
            assert(after =~= before.add_signal(signal, value));
            before.lemma_step_wf(Step::AddSignal(signal, value));
        }
        signal
    }

    /// Stores a new effect with no subscriptions.
    pub fn add_effect(&mut self, body: B) -> (effect: u64)
        requires
            old(self).wf(),
            old(self)@.subscriptions.dom().len() < SLOT_LIMIT,
        ensures
            final(self).wf(),
            !old(self)@.has_effect(effect),
            final(self)@ == old(self)@.add_effect(effect),
            final(self).bodies() == old(self).bodies().insert(effect, body),
    {
        let effect = self.effects.insert(HashSet::new());
        self.bodies.insert(effect, Rc::new(body));
        proof {
            let before = old(self)@;
            let after = self@;
            assert(after =~= before.add_effect(effect));
            assert(self.bodies() =~= old(self).bodies().insert(effect, body));
            before.lemma_step_wf(Step::AddEffect(effect));
        }
        effect
    }

    /// The current value of a signal.
    pub fn value(&self, signal: u64) -> (value: &V)
        requires
            self.wf(),
            self@.has_signal(signal),
        ensures
            *value == self@.values[signal],
    {
        self.values.get(&signal).unwrap()
    }

    /// Overwrites the value of a signal.
    pub fn write(&mut self, signal: u64, value: V)
        requires
            old(self).wf(),
            old(self)@.has_signal(signal),
        ensures
            final(self).wf(),
            final(self)@ == old(self)@.write(signal, value),
            final(self).bodies() == old(self).bodies(),
    {
        let _ = self.values.remove(&signal).unwrap();
        self.values.insert(signal, value);
        proof {
            let before = old(self)@;
            let after = self@;
            assert(after =~= before.write(signal, value));
            before.lemma_step_wf(Step::Write(signal, value));
        }
    }

    /// Records a read of `signal`: the running effect, if any, and the signal
    /// are linked in both directions.
    pub fn track(&mut self, signal: u64)
        requires
            old(self).wf(),
            old(self)@.has_signal(signal),
        ensures
            final(self).wf(),
            final(self)@ == old(self)@.track(signal),
            final(self).bodies() == old(self).bodies(),
    {
        if let Some(effect) = self.running_effect {
            self.signal_values.get_mut(signal).insert(effect);
            self.effects.get_mut(effect).insert(signal);
            proof {
                let before = old(self)@;
                let after = self@;
                assert(after =~= before.track(signal));
                before.lemma_step_wf(Step::Track(signal));
            }
        }
    }

    /// No effect is running any more.
    pub fn end_run(&mut self)
        requires
            old(self).wf(),
        ensures
            final(self).wf(),
            final(self)@ == old(self)@.end_run(),
            final(self).bodies() == old(self).bodies(),
    {
        self.running_effect = None;
        proof {
            old(self)@.lemma_step_wf(Step::EndRun);
        }
    }

    /// The subscribers of a signal at this moment, each exactly once.
    pub fn subscribers_of(&self, signal: u64) -> (effects: Vec<u64>)
        requires
            self.wf(),
            self@.has_signal(signal),
        ensures
            effects@.no_duplicates(),
            effects@.to_set() == self@.subscribers[signal],
    {
        snapshot(self.signal_values.get(signal))
    }

    /// The subscriptions of an effect at this moment, each exactly once.
    pub fn subscriptions_of(&self, effect: u64) -> (signals: Vec<u64>)
        requires
            self.wf(),
            self@.has_effect(effect),
        ensures
            signals@.no_duplicates(),
            signals@.to_set() == self@.subscriptions[effect],
    {
        snapshot(self.effects.get(effect))
    }

    /// Removes every edge of `effect`, on both of its ends.
    fn unsubscribe(&mut self, effect: u64)
        requires
            old(self).wf(),
            old(self)@.has_effect(effect),
        ensures
            final(self).wf(),
            final(self)@ == old(self)@.unsubscribe(effect),
            final(self).bodies() == old(self).bodies(),
    {
        let ghost before = self@;
        let signals = self.subscriptions_of(effect);
        let mut i: usize = 0;
        while i < signals.len()
            invariant
                i <= signals.len(),
                before.wf(),
                before.has_effect(effect),
                signals@.no_duplicates(),
                signals@.to_set() == before.subscriptions[effect],
                self.bodies@.dom() =~= before.subscriptions.dom(),
                self.bodies() == old(self).bodies(),
                self@.values == before.values,
                self@.subscriptions == before.subscriptions,
                self@.running == before.running,
                self@.subscribers =~= Map::new(
                    |s: u64| before.subscribers.contains_key(s),
                    |s: u64|
                        if signals@.take(i as int).contains(s) {
                            before.subscribers[s].remove(effect)
                        } else {
                            before.subscribers[s]
                        },
                ),
            decreases signals.len() - i,
        {
            let signal = signals[i];
            proof {
                assert(signals@.to_set().contains(signal));
                assert(before.reads(effect, signal));
                assert(before.notifies(signal, effect));
            }
            self.signal_values.get_mut(signal).remove(&effect);
            i += 1;
            proof {
                let done = signals@.take(i - 1);
                let now = signals@.take(i as int);
                assert(now =~= done.push(signal));
                assert(!done.contains(signal));
                assert forall|s: u64| now.contains(s) <==> done.contains(s) || s == signal by {
                    if done.contains(s) {
                        let k = choose|k: int| 0 <= k < done.len() && done[k] == s;
                        assert(now[k] == s);
                    }
                    assert(now[i - 1] == signal);
                }
            }
        }
        self.effects.get_mut(effect).clear();
        proof {
            assert(signals@.take(signals@.len() as int) =~= signals@);
            assert forall|s: u64| before.has_signal(s) implies #[trigger] self@.subscribers[s]
                == before.subscribers[s].remove(effect) by {
                if !signals@.contains(s) {
                    assert(!signals@.to_set().contains(s));
                    assert(!before.reads(effect, s));
                    assert(!before.notifies(s, effect));
                    assert(before.subscribers[s].remove(effect) =~= before.subscribers[s]);
                }
            }
            assert(self@ =~= before.unsubscribe(effect));
            before.lemma_unsubscribe_wf(effect);
            assert(self.bodies@.dom() =~= self@.subscriptions.dom());
        }
    }

    /// Prepares a run of `effect`: it becomes the running effect, and every
    /// edge it had from an earlier run is removed.
    pub fn begin_run(&mut self, effect: u64)
        requires
            old(self).wf(),
            old(self)@.has_effect(effect),
        ensures
            final(self).wf(),
            final(self)@ == old(self)@.begin_run(effect),
            final(self).bodies() == old(self).bodies(),
    {
        self.running_effect = Some(effect);
        proof {
            let before = old(self)@;
            let marked = self@;
            assert forall|s: u64, e: u64| marked.notifies(s, e) <==> marked.reads(e, s) by {
                assert(before.notifies(s, e) <==> before.reads(e, s));
            }
        }
        self.unsubscribe(effect);
    }

    /// A pointer to the body of an effect.
    pub fn body(&self, effect: u64) -> (body: Rc<B>)
        requires
            self.wf(),
            self@.has_effect(effect),
        ensures
            *body == self.bodies()[effect],
    {
        share(self.bodies.get(&effect).unwrap())
    }

    /// Replaces the value of a signal by what `f` makes of it.
    pub fn replace_with<F: FnOnce(V) -> V>(&mut self, signal: u64, f: F)
        requires
            old(self).wf(),
            old(self)@.has_signal(signal),
            f.requires((old(self)@.values[signal],)),
        ensures
            final(self).wf(),
            f.ensures((old(self)@.values[signal],), final(self)@.values[signal]),
            final(self)@ == old(self)@.write(signal, final(self)@.values[signal]),
            final(self).bodies() == old(self).bodies(),
    {
        let current = self.values.remove(&signal).unwrap();
        self.values.insert(signal, f(current));
        proof {
            let before = old(self)@;
            let after = self@;
            assert(after =~= before.write(signal, after.values[signal]));
            before.lemma_step_wf(Step::Write(signal, after.values[signal]));
        }
    }

    /// Lets `f` change the value of a signal in place: the value stays where
    /// it is stored and `f` works on it through a reference.
    pub fn modify<F: FnOnce(&mut V)>(&mut self, signal: u64, f: F)
        requires
            old(self).wf(),
            old(self)@.has_signal(signal),
            forall|slot: &mut V|
                *slot == old(self)@.values[signal] ==> #[trigger] f.requires((slot,)),
        ensures
            final(self).wf(),
            exists|slot: &mut V|
                #![trigger f.ensures((slot,), ())]
                *slot == old(self)@.values[signal]
                    && *final(slot) == final(self)@.values[signal]
                    && f.ensures((slot,), ()),
            final(self)@ == old(self)@.write(signal, final(self)@.values[signal]),
            final(self).bodies() == old(self).bodies(),
    {
        match self.values.entry(signal) {
            Entry::Occupied(entry) => {
                f(entry.into_mut());
            },
            Entry::Vacant(_) => vstd::pervasive::unreached(),
        }
        proof {
            let before = old(self)@;
            let after = self@;
            assert(after =~= before.write(signal, after.values[signal]));
            before.lemma_step_wf(Step::Write(signal, after.values[signal]));
        }
    }
}

} // verus!
