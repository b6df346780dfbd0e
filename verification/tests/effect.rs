use reactive::{Effect, Runtime};
use std::cell::RefCell;
use std::rc::Rc;

/// An effect given as a boxed closure.
struct Reaction<V>(Box<dyn Fn(&mut Runtime<V, Reaction<V>>)>);

impl<V> Effect<V> for Reaction<V> {
    fn run(&self, rt: &mut Runtime<V, Self>) {
        (self.0)(rt)
    }
}

/// What the signals of a test with mixed contents hold.
#[derive(Clone, Copy, Debug, PartialEq)]
enum Item {
    Text(&'static str),
    Count(i32),
}

#[test]
fn create_effect() {
    let ctx: &mut Runtime<bool, Reaction<bool>> = Box::leak(Box::new(Runtime::new()));

    let effect_ran = ctx.create_signal(false);

    ctx.create_effect(Reaction(Box::new(move |ctx| effect_ran.set(ctx, true))));

    assert!(effect_ran.get(ctx));
}

#[test]
fn rerun_on_sub_update() {
    let ctx: &mut Runtime<Item, Reaction<Item>> = Box::leak(Box::new(Runtime::new()));

    let sub = ctx.create_signal(Item::Text("Value isn't used"));
    let times_run = ctx.create_signal(Item::Count(0));

    ctx.create_effect(Reaction(Box::new(move |ctx| {
        sub.get(ctx);

        times_run.update(ctx, |c| match c {
            Item::Count(n) => Item::Count(n + 1),
            other => other,
        });
    })));

    sub.set(ctx, Item::Text("Value changed!"));

    assert_eq!(times_run.get(ctx), &Item::Count(2));
}

#[test]
fn unsubscribe() {
    let ctx: &mut Runtime<&str, Reaction<&str>> = Box::leak(Box::new(Runtime::new()));

    let sub = ctx.create_signal("Value isn't used");
    let times_run = Rc::new(RefCell::new(0));
    let times_run_cloned = times_run.clone();

    ctx.create_effect(Reaction(Box::new(move |ctx| {
        if *times_run_cloned.as_ref().borrow() < 2 {
            sub.get(ctx);
        }

        *times_run_cloned.borrow_mut() += 1;
    })));

    sub.set(ctx, "Value changed!"); // Effect should rerun here
    sub.set(ctx, "Value changed again!"); // Effect should also rerun here
    sub.set(ctx, "Value changed for a third time!"); // Effect shouldn't rerun here

    assert_eq!(*times_run.borrow(), 3);
}
