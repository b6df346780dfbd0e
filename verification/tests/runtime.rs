use reactive::slots::SLOT_LIMIT;
use reactive::{Effect, Runtime, Signal};
use std::cell::{Cell, RefCell};
use std::rc::Rc;

/// An effect given as a boxed closure.
struct Reaction<V>(Box<dyn Fn(&mut Runtime<V, Reaction<V>>)>);

impl<V> Effect<V> for Reaction<V> {
    fn run(&self, rt: &mut Runtime<V, Self>) {
        (self.0)(rt)
    }
}

type Rt = Runtime<i32, Reaction<i32>>;

/// Registers an effect that counts its runs and reads the given signals.
fn counting_effect(rt: &mut Rt, reads: Vec<Signal<i32>>) -> Rc<Cell<u32>> {
    let runs = Rc::new(Cell::new(0));
    let seen = runs.clone();
    rt.create_effect(Reaction(Box::new(move |rt| {
        for signal in &reads {
            signal.get(rt);
        }
        seen.set(seen.get() + 1);
    })));
    runs
}

#[test]
fn new_runtime_is_empty() {
    let rt = Rt::new();
    assert_eq!(rt.signal_count(), 0);
    assert_eq!(rt.effect_count(), 0);
}

#[test]
fn counts_follow_creation() {
    let mut rt = Rt::new();
    let a = rt.create_signal(1);
    let b = rt.create_signal(2);
    counting_effect(&mut rt, vec![a, b]);
    assert_eq!(rt.signal_count(), 2);
    assert_eq!(rt.effect_count(), 1);
    assert!(rt.contains(a));
    assert!(rt.contains(b));
    assert_ne!(a.id(), b.id());
}

#[test]
fn an_empty_runtime_contains_no_signal() {
    let mut one = Rt::new();
    let other = Rt::new();
    let a = one.create_signal(1);
    assert!(one.contains(a));
    assert!(!other.contains(a));
}

#[test]
fn contains_tests_the_id_alone() {
    let mut one = Rt::new();
    let mut other = Rt::new();
    let a = one.create_signal(1);
    let b = other.create_signal(2);
    assert_eq!(a.id(), b.id());
    assert!(other.contains(a));
    assert_eq!(a.get(&mut other), &2);
}

#[test]
fn try_create_signal_succeeds_while_there_is_room() {
    let mut rt = Rt::new();
    assert!(rt.signal_count() < SLOT_LIMIT);
    let a = match rt.try_create_signal(5) {
        Ok(signal) => signal,
        Err(_) => panic!("the runtime has room"),
    };
    assert_eq!(a.get(&mut rt), &5);
    assert_eq!(rt.signal_count(), 1);
}

#[test]
fn try_create_effect_runs_the_effect() {
    let mut rt = Rt::new();
    let a = rt.create_signal(0);
    let result = rt.try_create_effect(Reaction(Box::new(move |rt| a.set(rt, 9))));
    assert!(result.is_ok());
    assert_eq!(a.get(&mut rt), &9);
    assert_eq!(rt.effect_count(), 1);
}

#[test]
fn copies_of_a_handle_name_the_same_signal() {
    let mut rt = Rt::new();
    let a = rt.create_signal(1);
    let b = a;
    let c = a.clone();
    b.set(&mut rt, 2);
    assert_eq!(a.get(&mut rt), &2);
    assert_eq!(c.get(&mut rt), &2);
    assert_eq!(a.id(), c.id());
}

#[test]
fn set_then_get_returns_the_written_value() {
    let mut rt = Rt::new();
    let a = rt.create_signal(1);
    let b = rt.create_signal(100);
    for v in [0, -5, i32::MAX, 7] {
        a.set(&mut rt, v);
        assert_eq!(a.get(&mut rt), &v);
        assert_eq!(b.get(&mut rt), &100);
    }
}

#[test]
fn update_applies_the_function_to_the_old_value() {
    let mut rt = Rt::new();
    let a = rt.create_signal(5);
    a.update(&mut rt, |x| x * 2 + 1);
    assert_eq!(a.get(&mut rt), &11);
    a.update(&mut rt, |x| -x);
    assert_eq!(a.get(&mut rt), &-11);
}

#[test]
fn mutate_with_changes_the_value_in_place() {
    let mut rt: Runtime<Vec<u8>, Reaction<Vec<u8>>> = Runtime::new();
    let a = rt.create_signal(vec![1, 2]);
    a.mutate_with(&mut rt, |v| v.push(3));
    assert_eq!(a.get(&mut rt), &vec![1, 2, 3]);
}

#[test]
fn an_effect_runs_once_when_it_is_registered() {
    let mut rt = Rt::new();
    let a = rt.create_signal(1);
    let runs = counting_effect(&mut rt, vec![a]);
    assert_eq!(runs.get(), 1);
    assert_eq!(a.get(&mut rt), &1);
    assert_eq!(runs.get(), 1);
}

#[test]
fn a_write_reruns_a_subscriber_once() {
    let mut rt = Rt::new();
    let a = rt.create_signal(1);
    let runs = counting_effect(&mut rt, vec![a]);
    a.set(&mut rt, 2);
    assert_eq!(runs.get(), 2);
    a.set(&mut rt, 2);
    assert_eq!(runs.get(), 3);
}

#[test]
fn update_and_mutate_with_rerun_a_subscriber_once_each() {
    let mut rt = Rt::new();
    let a = rt.create_signal(1);
    let runs = counting_effect(&mut rt, vec![a]);
    a.update(&mut rt, |x| x + 1);
    assert_eq!(runs.get(), 2);
    a.mutate_with(&mut rt, |x| *x += 1);
    assert_eq!(runs.get(), 3);
    assert_eq!(a.get(&mut rt), &3);
}

#[test]
fn reading_a_signal_twice_gives_one_rerun_per_write() {
    let mut rt = Rt::new();
    let a = rt.create_signal(1);
    let runs = counting_effect(&mut rt, vec![a, a]);
    a.set(&mut rt, 2);
    assert_eq!(runs.get(), 2);
    a.set(&mut rt, 3);
    assert_eq!(runs.get(), 3);
}

#[test]
fn a_write_to_another_signal_reruns_nothing() {
    let mut rt = Rt::new();
    let a = rt.create_signal(1);
    let b = rt.create_signal(2);
    let runs = counting_effect(&mut rt, vec![b]);
    a.set(&mut rt, 10);
    a.update(&mut rt, |x| x + 1);
    a.mutate_with(&mut rt, |x| *x += 1);
    assert_eq!(runs.get(), 1);
    b.set(&mut rt, 20);
    assert_eq!(runs.get(), 2);
}

#[test]
fn every_subscriber_is_rerun_once_per_write() {
    let mut rt = Rt::new();
    let a = rt.create_signal(1);
    let first = counting_effect(&mut rt, vec![a]);
    let second = counting_effect(&mut rt, vec![a]);
    let third = counting_effect(&mut rt, vec![a]);
    a.set(&mut rt, 2);
    assert_eq!((first.get(), second.get(), third.get()), (2, 2, 2));
    a.set(&mut rt, 3);
    assert_eq!((first.get(), second.get(), third.get()), (3, 3, 3));
}

#[test]
fn writing_does_not_subscribe_the_writer() {
    let mut rt = Rt::new();
    let a = rt.create_signal(0);
    let runs = Rc::new(Cell::new(0));
    let seen = runs.clone();
    rt.create_effect(Reaction(Box::new(move |rt| {
        seen.set(seen.get() + 1);
        a.set(rt, 1);
        a.update(rt, |x| x + 1);
        a.mutate_with(rt, |x| *x += 1);
    })));
    assert_eq!(runs.get(), 1);
    assert_eq!(a.get(&mut rt), &3);
    a.set(&mut rt, 10);
    assert_eq!(runs.get(), 1);
}

#[test]
fn an_effect_depends_on_what_its_latest_run_read() {
    let mut rt = Rt::new();
    let switch = rt.create_signal(0);
    let left = rt.create_signal(0);
    let right = rt.create_signal(0);
    let runs = Rc::new(Cell::new(0));
    let seen = runs.clone();
    rt.create_effect(Reaction(Box::new(move |rt| {
        seen.set(seen.get() + 1);
        if *switch.get(rt) == 0 {
            left.get(rt);
        } else {
            right.get(rt);
        }
    })));
    assert_eq!(runs.get(), 1);
    right.set(&mut rt, 1);
    assert_eq!(runs.get(), 1);
    left.set(&mut rt, 1);
    assert_eq!(runs.get(), 2);
    switch.set(&mut rt, 1);
    assert_eq!(runs.get(), 3);
    left.set(&mut rt, 2);
    assert_eq!(runs.get(), 3);
    right.set(&mut rt, 2);
    assert_eq!(runs.get(), 4);
}

#[test]
fn a_write_inside_an_effect_reruns_subscribers_before_it_returns() {
    let mut rt = Rt::new();
    let source = rt.create_signal(0);
    let derived = rt.create_signal(0);
    let log = Rc::new(RefCell::new(Vec::new()));

    let inner = log.clone();
    rt.create_effect(Reaction(Box::new(move |rt| {
        let seen = *derived.get(rt);
        inner.borrow_mut().push(format!("inner sees {}", seen));
    })));

    let outer = log.clone();
    rt.create_effect(Reaction(Box::new(move |rt| {
        let v = *source.get(rt);
        outer.borrow_mut().push(format!("outer starts with {}", v));
        derived.set(rt, v * 2);
        outer.borrow_mut().push(format!("outer ends with {}", v));
    })));

    source.set(&mut rt, 4);

    assert_eq!(
        *log.borrow(),
        vec![
            "inner sees 0",
            "outer starts with 0",
            "inner sees 0",
            "outer ends with 0",
            "outer starts with 4",
            "inner sees 8",
            "outer ends with 4",
        ]
    );
    assert_eq!(derived.get(&mut rt), &8);
}

#[test]
fn a_subscriber_that_writes_back_decides_the_final_value() {
    let mut rt = Rt::new();
    let a = rt.create_signal(0);
    rt.create_effect(Reaction(Box::new(move |rt| {
        if *a.get(rt) > 10 {
            a.set(rt, 0);
        }
    })));
    a.set(&mut rt, 5);
    assert_eq!(a.get(&mut rt), &5);
    a.set(&mut rt, 50);
    assert_eq!(a.get(&mut rt), &0);
}

#[test]
fn an_effect_that_writes_what_it_reads_runs_again_at_once() {
    let mut rt = Rt::new();
    let a = rt.create_signal(0);
    let runs = Rc::new(Cell::new(0));
    let seen = runs.clone();
    rt.create_effect(Reaction(Box::new(move |rt| {
        seen.set(seen.get() + 1);
        let v = *a.get(rt);
        if v < 3 {
            a.set(rt, v + 1);
        }
    })));
    assert_eq!(runs.get(), 4);
    assert_eq!(a.get(&mut rt), &3);
    a.set(&mut rt, 3);
    assert_eq!(runs.get(), 5);
}

#[test]
fn reads_after_a_nested_run_are_not_tracked() {
    let mut rt = Rt::new();
    let first = rt.create_signal(0);
    let trigger = rt.create_signal(0);
    let late = rt.create_signal(0);

    counting_effect(&mut rt, vec![trigger]);

    let runs = Rc::new(Cell::new(0));
    let seen = runs.clone();
    rt.create_effect(Reaction(Box::new(move |rt| {
        seen.set(seen.get() + 1);
        first.get(rt);
        trigger.set(rt, 1);
        late.get(rt);
    })));
    assert_eq!(runs.get(), 1);
    late.set(&mut rt, 1);
    assert_eq!(runs.get(), 1);
    first.set(&mut rt, 1);
    assert_eq!(runs.get(), 2);
}

#[test]
fn an_effect_created_inside_an_effect_runs_at_once() {
    let mut rt = Rt::new();
    let a = rt.create_signal(0);
    let inner_runs = Rc::new(Cell::new(0));
    let seen = inner_runs.clone();
    rt.create_effect(Reaction(Box::new(move |rt| {
        let seen = seen.clone();
        rt.create_effect(Reaction(Box::new(move |rt| {
            a.get(rt);
            seen.set(seen.get() + 1);
        })));
    })));
    assert_eq!(inner_runs.get(), 1);
    assert_eq!(rt.effect_count(), 2);
    a.set(&mut rt, 1);
    assert_eq!(inner_runs.get(), 2);
}

#[test]
fn a_signal_created_inside_an_effect_is_usable() {
    let mut rt = Rt::new();
    let made = Rc::new(RefCell::new(None));
    let slot = made.clone();
    rt.create_effect(Reaction(Box::new(move |rt| {
        *slot.borrow_mut() = Some(rt.create_signal(41));
    })));
    let signal = made.borrow().expect("the effect ran");
    signal.update(&mut rt, |x| x + 1);
    assert_eq!(signal.get(&mut rt), &42);
}
