use reactive::{Effect, Runtime};

/// An effect given as a boxed closure.
struct Reaction<V>(Box<dyn Fn(&mut Runtime<V, Reaction<V>>)>);

impl<V> Effect<V> for Reaction<V> {
    fn run(&self, rt: &mut Runtime<V, Self>) {
        (self.0)(rt)
    }
}

#[test]
fn get() {
    let ctx: &mut Runtime<i32, Reaction<i32>> = Box::leak(Box::new(Runtime::new()));

    let s = ctx.create_signal(42);

    assert_eq!(s.get(ctx), &42);
}

#[test]
fn set() {
    let ctx: &mut Runtime<&str, Reaction<&str>> = Box::leak(Box::new(Runtime::new()));

    let s = ctx.create_signal("foo");

    s.set(ctx, "bar");

    assert_eq!(s.get(ctx), &"bar");
}

#[test]
fn update() {
    let ctx: &mut Runtime<i32, Reaction<i32>> = Box::leak(Box::new(Runtime::new()));

    let s = ctx.create_signal(3);

    let cube = |x| x * x * x;

    s.update(ctx, cube);

    assert_eq!(s.get(ctx), &27)
}

#[test]
fn mutate_with() {
    let ctx: &mut Runtime<i32, Reaction<i32>> = Box::leak(Box::new(Runtime::new()));

    let s = ctx.create_signal(6);

    let b = Box::leak(Box::new(7));

    s.mutate_with(ctx, |v| std::mem::swap(v, b));

    assert_eq!(s.get(ctx), &7);
    assert_eq!(*b, 6);
}
