//! The mathematical model of a reactive runtime.

use vstd::prelude::*;

verus! {

/// The state of a runtime as a plain mathematical value.
///
/// Signals and effects are named by 64-bit ids. An edge between a signal and
/// an effect is stored twice: in the signal's set of subscribers and in the
/// effect's set of subscriptions.
#[verifier::ext_equal]
pub struct Graph<V> {
    /// The current value of each signal.
    pub values: Map<u64, V>,
    /// For each signal, the effects that depend on it.
    pub subscribers: Map<u64, Set<u64>>,
    /// For each effect, the signals it depends on.
    pub subscriptions: Map<u64, Set<u64>>,
    /// The effect that is executing, if any.
    pub running: Option<u64>,
}

/// One step of a runtime: each primitive operation changes the graph by
/// exactly one of these.
pub enum Step<V> {
    /// A new signal, with its id and value.
    AddSignal(u64, V),
    /// A new effect, with its id.
    AddEffect(u64),
    /// A write of a value to a signal.
    Write(u64, V),
    /// A read of a signal.
    Track(u64),
    /// The start of a run of an effect.
    BeginRun(u64),
    /// The end of the current run.
    EndRun,
}

impl<V> Graph<V> {
    /// The graph with no signals and no effects.
    pub open spec fn empty() -> Self {
        Graph {
            values: Map::empty(),
            subscribers: Map::empty(),
            subscriptions: Map::empty(),
            running: None,
        }
    }

    /// `signal` is the id of a signal.
    pub open spec fn has_signal(self, signal: u64) -> bool {
        self.subscribers.contains_key(signal)
    }

    /// `effect` is the id of an effect.
    pub open spec fn has_effect(self, effect: u64) -> bool {
        self.subscriptions.contains_key(effect)
    }

    /// `signal` lists `effect` among its subscribers.
    pub open spec fn notifies(self, signal: u64, effect: u64) -> bool {
        self.has_signal(signal) && self.subscribers[signal].contains(effect)
    }

    /// `effect` lists `signal` among its subscriptions.
    pub open spec fn reads(self, effect: u64, signal: u64) -> bool {
        self.has_effect(effect) && self.subscriptions[effect].contains(signal)
    }

    /// Every signal has a value, every edge is recorded on both of its ends,
    /// everything is finite, and the running effect exists.
    pub open spec fn wf(self) -> bool {
        &&& self.values.dom() =~= self.subscribers.dom()
        &&& self.subscribers.dom().finite()
        &&& self.subscriptions.dom().finite()
        &&& forall|s: u64| self.has_signal(s) ==> #[trigger] self.subscribers[s].finite()
        &&& forall|e: u64| self.has_effect(e) ==> #[trigger] self.subscriptions[e].finite()
        &&& forall|s: u64, e: u64|
            #![trigger self.notifies(s, e)]
            #![trigger self.reads(e, s)]
            self.notifies(s, e) <==> self.reads(e, s)
        &&& self.running matches Some(e) ==> self.has_effect(e)
    }

    /// A new signal `signal` with value `value` and no subscribers.
    pub open spec fn add_signal(self, signal: u64, value: V) -> Self {
        Graph {
            values: self.values.insert(signal, value),
            subscribers: self.subscribers.insert(signal, Set::empty()),
            ..self
        }
    }

    /// A new effect `effect` with no subscriptions.
    pub open spec fn add_effect(self, effect: u64) -> Self {
        Graph { subscriptions: self.subscriptions.insert(effect, Set::empty()), ..self }
    }

    /// `signal` holds `value`; no edge changes.
    pub open spec fn write(self, signal: u64, value: V) -> Self {
        Graph { values: self.values.insert(signal, value), ..self }
    }

    /// The edge between `signal` and `effect`, recorded on both ends.
    pub open spec fn link(self, signal: u64, effect: u64) -> Self {
        Graph {
            subscribers: self.subscribers.insert(signal, self.subscribers[signal].insert(effect)),
            subscriptions: self.subscriptions.insert(
                effect,
                self.subscriptions[effect].insert(signal),
            ),
            ..self
        }
    }

    /// A read of `signal`: the running effect, if there is one, becomes a
    /// subscriber of it.
    pub open spec fn track(self, signal: u64) -> Self {
        match self.running {
            Some(effect) => self.link(signal, effect),
            None => self,
        }
    }

    /// `effect` leaves every subscriber set and has no subscriptions left.
    pub open spec fn unsubscribe(self, effect: u64) -> Self {
        Graph {
            subscribers: Map::new(
                |s: u64| self.subscribers.contains_key(s),
                |s: u64| self.subscribers[s].remove(effect),
            ),
            subscriptions: self.subscriptions.insert(effect, Set::empty()),
            ..self
        }
    }

    /// The state in which the body of `effect` starts to execute: it is the
    /// running effect and none of its former edges is left.
    pub open spec fn begin_run(self, effect: u64) -> Self {
        Graph { running: Some(effect), ..self.unsubscribe(effect) }
    }

    /// `effect` is running and has no edge: the state in which a body is
    /// entered.
    pub open spec fn fresh_run(self, effect: u64) -> bool {
        &&& self.running == Some(effect)
        &&& self.has_effect(effect)
        &&& self.subscriptions[effect] =~= Set::empty()
        &&& forall|s: u64| !self.notifies(s, effect)
    }

    /// No effect is running.
    pub open spec fn end_run(self) -> Self {
        Graph { running: None, ..self }
    }

    /// Whether `step` can be taken from this graph: new ids are unused, all
    /// other ids exist.
    pub open spec fn enabled(self, step: Step<V>) -> bool {
        match step {
            Step::AddSignal(signal, _) => !self.has_signal(signal),
            Step::AddEffect(effect) => !self.has_effect(effect),
            Step::Write(signal, _) => self.has_signal(signal),
            Step::Track(signal) => self.has_signal(signal),
            Step::BeginRun(effect) => self.has_effect(effect),
            Step::EndRun => true,
        }
    }

    /// The graph after `step`.
    pub open spec fn step(self, step: Step<V>) -> Self {
        match step {
            Step::AddSignal(signal, value) => self.add_signal(signal, value),
            Step::AddEffect(effect) => self.add_effect(effect),
            Step::Write(signal, value) => self.write(signal, value),
            Step::Track(signal) => self.track(signal),
            Step::BeginRun(effect) => self.begin_run(effect),
            Step::EndRun => self.end_run(),
        }
    }

    /// The graph after `steps`, taken from left to right.
    pub open spec fn after(self, steps: Seq<Step<V>>) -> Self
        decreases steps.len(),
    {
        if steps.len() == 0 {
            self
        } else {
            self.after(steps.drop_last()).step(steps.last())
        }
    }

    /// Every step of `steps` can be taken when its turn comes.
    pub open spec fn admits(self, steps: Seq<Step<V>>) -> bool
        decreases steps.len(),
    {
        steps.len() == 0 || (self.admits(steps.drop_last()) && self.after(
            steps.drop_last(),
        ).enabled(steps.last()))
    }

    /// Step `i` of `steps` is a read of `signal` while `effect` is running.
    pub open spec fn reads_at(
        self,
        steps: Seq<Step<V>>,
        i: int,
        signal: u64,
        effect: u64,
    ) -> bool {
        &&& 0 <= i < steps.len()
        &&& steps[i] == Step::<V>::Track(signal)
        &&& self.after(steps.take(i)).running == Some(effect)
    }

    /// No run of `effect` starts after step `i` of `steps`.
    pub open spec fn no_run_since(steps: Seq<Step<V>>, i: int, effect: u64) -> bool {
        forall|j: int| i < j < steps.len() ==> #[trigger] steps[j] != Step::<V>::BeginRun(effect)
    }

    /// In the course of `steps`, `effect` read `signal` and has not started
    /// another run since.
    pub open spec fn latest_run_read(self, steps: Seq<Step<V>>, signal: u64, effect: u64) -> bool {
        exists|i: int| #[trigger]
            self.reads_at(steps, i, signal, effect) && Self::no_run_since(steps, i, effect)
    }

    /// `effect` was a subscriber of `signal` before `steps` and starts no run
    /// in their course.
    pub open spec fn kept_edge(self, steps: Seq<Step<V>>, signal: u64, effect: u64) -> bool {
        self.notifies(signal, effect) && Self::no_run_since(steps, -1, effect)
    }

    /// Linking an existing signal and an existing effect keeps the graph well
    /// formed.
    pub proof fn lemma_link_wf(self, signal: u64, effect: u64)
        requires
            self.wf(),
            self.has_signal(signal),
            self.has_effect(effect),
        ensures
            self.link(signal, effect).wf(),
    {
        let after = self.link(signal, effect);
        assert(after.subscribers.dom() =~= self.subscribers.dom());
        assert(after.subscriptions.dom() =~= self.subscriptions.dom());
        assert forall|s: u64, e: u64| after.notifies(s, e) <==> after.reads(e, s) by {
            assert(self.notifies(s, e) <==> self.reads(e, s));
        }
    }

    /// Removing the edges of an existing effect keeps the graph well formed.
    pub proof fn lemma_unsubscribe_wf(self, effect: u64)
        requires
            self.wf(),
            self.has_effect(effect),
        ensures
            self.unsubscribe(effect).wf(),
    {
        let after = self.unsubscribe(effect);
        assert(after.subscribers.dom() =~= self.subscribers.dom());
        assert(after.subscriptions.dom() =~= self.subscriptions.dom());
        assert forall|s: u64, e: u64| after.notifies(s, e) <==> after.reads(e, s) by {
            assert(self.notifies(s, e) <==> self.reads(e, s));
        }
    }

    /// The unsubscribe pass leaves the effect without any edge.
    pub proof fn lemma_begin_run_fresh(self, effect: u64)
        requires
            self.wf(),
            self.has_effect(effect),
        ensures
            self.begin_run(effect).wf(),
            self.begin_run(effect).fresh_run(effect),
    {
        self.lemma_unsubscribe_wf(effect);
        let cleared = self.unsubscribe(effect);
        let after = self.begin_run(effect);
        assert forall|s: u64, e: u64| after.notifies(s, e) <==> after.reads(e, s) by {
            assert(cleared.notifies(s, e) <==> cleared.reads(e, s));
        }
    }

    /// Every enabled step keeps the graph well formed.
    pub proof fn lemma_step_wf(self, step: Step<V>)
        requires
            self.wf(),
            self.enabled(step),
        ensures
            self.step(step).wf(),
    {
        let after = self.step(step);
        match step {
            Step::Track(signal) => {
                if let Some(effect) = self.running {
                    self.lemma_link_wf(signal, effect);
                }
            },
            Step::BeginRun(effect) => {
                self.lemma_begin_run_fresh(effect);
            },
            _ => {
                assert forall|s: u64, e: u64| after.notifies(s, e) <==> after.reads(e, s) by {
                    assert(self.notifies(s, e) <==> self.reads(e, s));
                }
            },
        }
    }

    /// A sequence of enabled steps keeps the graph well formed.
    pub proof fn lemma_after_wf(self, steps: Seq<Step<V>>)
        requires
            self.wf(),
            self.admits(steps),
        ensures
            self.after(steps).wf(),
        decreases steps.len(),
    {
        if steps.len() > 0 {
            self.lemma_after_wf(steps.drop_last());
            self.after(steps.drop_last()).lemma_step_wf(steps.last());
        }
    }
}

} // verus!
