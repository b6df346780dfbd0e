//! What holds of every runtime, stated over the graph model that the
//! contracts of the operations speak of.

use crate::graph::{Graph, Step};
use crate::runtime::{Effect, Runtime};
use vstd::prelude::*;

verus! {

/// Every state that a runtime can reach from the empty one is well formed: in
/// particular, every edge is recorded on both of its ends.
pub proof fn law_reachable_graphs_are_wf<V>(steps: Seq<Step<V>>, signal: u64, effect: u64)
    requires
        Graph::<V>::empty().admits(steps),
    ensures
        Graph::<V>::empty().after(steps).wf(),
        Graph::<V>::empty().after(steps).notifies(signal, effect) <==> Graph::<V>::empty().after(
            steps,
        ).reads(effect, signal),
{
    Graph::<V>::empty().lemma_after_wf(steps);
}

/// Once `value` has been written to a signal, a read of that signal yields
/// `value`, whether or not the read is tracked.
pub proof fn law_read_your_write<V>(g: Graph<V>, signal: u64, value: V)
    requires
        g.wf(),
        g.has_signal(signal),
    ensures
        g.write(signal, value).wf(),
        g.write(signal, value).values[signal] == value,
        g.write(signal, value).track(signal).values[signal] == value,
{
    g.lemma_step_wf(Step::Write(signal, value));
}

/// If `f` computes the pure function `pure`, then the state `after` that an
/// update by `f` leaves holds `pure(x)` where `x` was the value before, and a
/// read yields it.
pub proof fn law_update_composition<V, F: FnOnce(V) -> V>(
    before: Graph<V>,
    after: Graph<V>,
    signal: u64,
    f: F,
    pure: spec_fn(V) -> V,
)
    requires
        before.wf(),
        before.has_signal(signal),
        forall|x: V, y: V| f.ensures((x,), y) ==> y == pure(x),
        f.ensures((before.values[signal],), after.values[signal]),
        after == before.write(signal, after.values[signal]),
    ensures
        after == before.write(signal, pure(before.values[signal])),
        after.track(signal).values[signal] == pure(before.values[signal]),
{
}

/// If `f` turns every value `x` behind the reference into `pure(x)`, then the
/// state `after` that a mutation by `f` leaves holds `pure(x)` where `x` was
/// the value before, and a read yields it.
pub proof fn law_in_place_mutation<V, F: FnOnce(&mut V)>(
    before: Graph<V>,
    after: Graph<V>,
    signal: u64,
    f: F,
    pure: spec_fn(V) -> V,
)
    requires
        before.wf(),
        before.has_signal(signal),
        forall|slot: &mut V| #[trigger] f.ensures((slot,), ()) ==> *final(slot) == pure(*slot),
        exists|slot: &mut V|
            #![trigger f.ensures((slot,), ())]
            *slot == before.values[signal]
                && *final(slot) == after.values[signal]
                && f.ensures((slot,), ()),
        after == before.write(signal, after.values[signal]),
    ensures
        after == before.write(signal, pure(before.values[signal])),
        after.track(signal).values[signal] == pure(before.values[signal]),
{
}

/// Ids stay valid: no step removes a signal or an effect.
pub proof fn law_ids_stay_valid<V>(g: Graph<V>, step: Step<V>, id: u64)
    requires
        g.wf(),
        g.enabled(step),
    ensures
        g.has_signal(id) ==> g.step(step).has_signal(id),
        g.has_effect(id) ==> g.step(step).has_effect(id),
{
}

/// A newly registered effect enters its first run at once: it exists, it is
/// the running effect, and it has no edge yet.
pub proof fn law_new_effect_starts_fresh<V>(g: Graph<V>, effect: u64)
    requires
        g.wf(),
        !g.has_effect(effect),
    ensures
        g.add_effect(effect).begin_run(effect).wf(),
        g.add_effect(effect).begin_run(effect).fresh_run(effect),
{
    g.lemma_step_wf(Step::AddEffect(effect));
    g.add_effect(effect).lemma_begin_run_fresh(effect);
}

/// When the running effect reads a signal, it is among the signal's
/// subscribers afterwards, and the signal among its subscriptions.
pub proof fn law_read_subscribes<V>(g: Graph<V>, signal: u64, effect: u64)
    requires
        g.wf(),
        g.has_signal(signal),
        g.running == Some(effect),
    ensures
        g.track(signal).notifies(signal, effect),
        g.track(signal).reads(effect, signal),
{
}

/// A subscription lasts until the effect runs again: no step other than the
/// start of a run of `effect` takes `effect` out of the subscribers of
/// `signal`.
pub proof fn law_subscription_lasts<V>(g: Graph<V>, step: Step<V>, signal: u64, effect: u64)
    requires
        g.wf(),
        g.enabled(step),
        g.notifies(signal, effect),
        step != Step::<V>::BeginRun(effect),
    ensures
        g.step(step).notifies(signal, effect),
{
    assert(g.reads(effect, signal));
}

/// A notification re-runs the subscribers of the signal in some order `order`
/// that holds each of them once: this is the `order` in the contract of
/// `Runtime::notify` and of the write operations of a signal. Every
/// subscriber stands at exactly one place in it, so a write gives it exactly
/// one turn.
pub proof fn law_subscriber_runs_once<V>(g: Graph<V>, signal: u64, effect: u64, order: Seq<u64>)
    requires
        g.wf(),
        g.notifies(signal, effect),
        order.no_duplicates(),
        order.to_set() == g.subscribers[signal],
    ensures
        exists|i: int|
            0 <= i < order.len() && order[i] == effect && forall|j: int|
                0 <= j < order.len() && order[j] == effect ==> j == i,
{
    assert(order.to_set().contains(effect));
    let i = choose|i: int| 0 <= i < order.len() && order[i] == effect;
    assert(0 <= i < order.len() && order[i] == effect && forall|j: int|
        0 <= j < order.len() && order[j] == effect ==> j == i);
}

/// The start of a run removes every edge of the effect, so after the run it
/// depends on exactly the signals it read in that run.
pub proof fn law_rerun_unsubscribes<V>(g: Graph<V>, effect: u64)
    requires
        g.wf(),
        g.has_effect(effect),
    ensures
        g.begin_run(effect).wf(),
        forall|s: u64| !g.begin_run(effect).notifies(s, effect),
        forall|s: u64| !g.begin_run(effect).reads(effect, s),
{
    g.lemma_begin_run_fresh(effect);
}

/// An effect that is not a subscriber of `signal` does not become one by any
/// step other than its own read of `signal`. An effect that does not exist yet
/// is no subscriber, so an effect that never read `signal` is never among its
/// subscribers.
pub proof fn law_no_cross_talk<V>(g: Graph<V>, step: Step<V>, signal: u64, effect: u64)
    requires
        g.wf(),
        g.enabled(step),
        !g.notifies(signal, effect),
        !(step == Step::<V>::Track(signal) && g.running == Some(effect)),
    ensures
        !g.step(step).notifies(signal, effect),
{
    assert(!g.reads(effect, signal));
}

/// An effect that is not a subscriber of a signal has no place in the
/// `order` in which a notification of that signal re-runs effects, so a write
/// to the signal gives it no turn.
pub proof fn law_stranger_not_run<V>(g: Graph<V>, signal: u64, effect: u64, order: Seq<u64>)
    requires
        g.has_signal(signal),
        !g.notifies(signal, effect),
        order.to_set() == g.subscribers[signal],
    ensures
        !order.contains(effect),
{
    assert(order.contains(effect) ==> order.to_set().contains(effect));
}

/// A second read of the same signal in one run changes nothing: the edge is
/// there once.
pub proof fn law_read_twice<V>(g: Graph<V>, signal: u64)
    requires
        g.wf(),
        g.has_signal(signal),
    ensures
        g.track(signal).track(signal) == g.track(signal),
{
    let once = g.track(signal);
    let twice = once.track(signal);
    if let Some(effect) = g.running {
        assert(once.subscribers[signal].insert(effect) =~= once.subscribers[signal]);
        assert(once.subscriptions[effect].insert(signal) =~= once.subscriptions[effect]);
        assert(twice.subscribers =~= once.subscribers);
        assert(twice.subscriptions =~= once.subscriptions);
    }
    assert(twice =~= once);
}

/// The subscribers of a signal are the effects whose latest run read it.
///
/// After any sequence of steps, `effect` is among the subscribers of `signal`
/// exactly if it read `signal` in the course of the steps and has not started
/// another run since, or if it was a subscriber at the outset and has not
/// started a run at all.
pub proof fn law_subscribers_are_latest_readers<V>(
    g: Graph<V>,
    steps: Seq<Step<V>>,
    signal: u64,
    effect: u64,
)
    requires
        g.wf(),
        g.admits(steps),
    ensures
        g.after(steps).wf(),
        g.after(steps).notifies(signal, effect) <==> (g.latest_run_read(steps, signal, effect)
            || g.kept_edge(steps, signal, effect)),
    decreases steps.len(),
{
    g.lemma_after_wf(steps);
    if steps.len() > 0 {
        let n = steps.len() as int;
        let init = steps.drop_last();
        let last = steps.last();
        let before = g.after(init);
        let begins = last == Step::<V>::BeginRun(effect);
        let reads_now = last == Step::<V>::Track(signal) && before.running == Some(effect);

        // The claim holds up to the last step.
        law_subscribers_are_latest_readers(g, init, signal, effect);

        // The last step adds the edge if it is a read by `effect`, removes it
        // if it starts a run of `effect`, and leaves it alone otherwise.
        assert(before.notifies(signal, effect) <==> before.reads(effect, signal));
        assert(g.after(steps).notifies(signal, effect) <==> reads_now || (before.notifies(
            signal,
            effect,
        ) && !begins));

        // Before the last step, `steps` and `init` are the same sequence.
        assert forall|i: int| 0 <= i < n - 1 implies (g.reads_at(steps, i, signal, effect)
            <==> g.reads_at(init, i, signal, effect)) by {
            assert(init.take(i) =~= steps.take(i));
        }
        assert(g.reads_at(steps, n - 1, signal, effect) <==> reads_now) by {
            assert(steps.take(n - 1) =~= init);
        }
        assert forall|i: int| -1 <= i < n - 1 implies (Graph::<V>::no_run_since(steps, i, effect)
            <==> Graph::<V>::no_run_since(init, i, effect) && !begins) by {
            if Graph::<V>::no_run_since(steps, i, effect) {
                assert(steps[n - 1] != Step::<V>::BeginRun(effect));
                assert forall|j: int| i < j < init.len() implies #[trigger] init[j]
                    != Step::<V>::BeginRun(effect) by {
                    assert(init[j] == steps[j]);
                }
            }
            if Graph::<V>::no_run_since(init, i, effect) && !begins {
                assert forall|j: int| i < j < steps.len() implies #[trigger] steps[j]
                    != Step::<V>::BeginRun(effect) by {
                    if j < n - 1 {
                        assert(init[j] == steps[j]);
                    }
                }
            }
        }

        // A read that counts for `steps` counts for `init` unless it is the
        // last step, and the other way round unless a run begins.
        if g.latest_run_read(steps, signal, effect) {
            let i = choose|i: int| #[trigger]
                g.reads_at(steps, i, signal, effect) && Graph::<V>::no_run_since(steps, i, effect);
            if i < n - 1 {
                assert(g.reads_at(init, i, signal, effect));
            }
        }
        if g.latest_run_read(init, signal, effect) && !begins {
            let i = choose|i: int| #[trigger]
                g.reads_at(init, i, signal, effect) && Graph::<V>::no_run_since(init, i, effect);
            assert(g.reads_at(steps, i, signal, effect));
        }
    }
}

/// A notification of a signal with exactly one subscriber is exactly one run
/// of that subscriber: if `last` is what a notification of `signal` leaves of
/// `first`, then `last` is `first` after one run of `effect`.
pub proof fn law_one_subscriber_one_run<V, B: Effect<V>>(
    first: Runtime<V, B>,
    last: Runtime<V, B>,
    signal: u64,
    effect: u64,
)
    requires
        first@.subscribers[signal] == set![effect],
        first@.has_effect(effect),
        exists|order: Seq<u64>, states: Seq<Runtime<V, B>>|
            #![trigger Runtime::paces(order, states, first, last, signal)]
            Runtime::paces(order, states, first, last, signal) && forall|i: int|
                #![trigger order[i]]
                0 <= i < order.len() ==> if states[i]@.has_effect(order[i]) {
                    exists|r: &mut Runtime<V, B>|
                        #![trigger states[i].enters(order[i], r)]
                        states[i].enters(order[i], r) && states[i + 1].left_by(*final(r))
                } else {
                    states[i + 1] == states[i]
                },
    ensures
        exists|r: &mut Runtime<V, B>|
            #![trigger first.enters(effect, r)]
            first.enters(effect, r) && last.left_by(*final(r)),
{
    let (order, states) = choose|order: Seq<u64>, states: Seq<Runtime<V, B>>|
        #![trigger Runtime::paces(order, states, first, last, signal)]
        Runtime::paces(order, states, first, last, signal) && forall|i: int|
            #![trigger order[i]]
            0 <= i < order.len() ==> if states[i]@.has_effect(order[i]) {
                exists|r: &mut Runtime<V, B>|
                    #![trigger states[i].enters(order[i], r)]
                    states[i].enters(order[i], r) && states[i + 1].left_by(*final(r))
            } else {
                states[i + 1] == states[i]
            };
    assert(order.to_set().contains(effect));
    assert(order.len() == 1) by {
        if order.len() >= 2 {
            assert(order.to_set().contains(order[0]));
            assert(order.to_set().contains(order[1]));
        }
    }
    assert(order.to_set().contains(order[0]));
}

/// A notification of a signal without subscribers changes nothing.
pub proof fn law_no_subscriber_no_run<V, B: Effect<V>>(
    first: Runtime<V, B>,
    last: Runtime<V, B>,
    signal: u64,
    order: Seq<u64>,
    states: Seq<Runtime<V, B>>,
)
    requires
        first@.subscribers[signal].is_empty(),
        Runtime::paces(order, states, first, last, signal),
    ensures
        last == first,
{
    if order.len() > 0 {
        assert(order.to_set().contains(order[0]));
    }
}

} // verus!
