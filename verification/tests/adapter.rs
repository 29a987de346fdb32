use closure_adapter::closure::Closure;
use closure_adapter::step::Step;
use std::cell::{Cell, RefCell};
use std::collections::{HashMap, HashSet};
use std::rc::Rc;

/// Stands in for the allocator and the native layer: it carries out each
/// step and panics on one that would touch freed memory, free twice, free
/// what is still registered, or trigger while nothing is registered.
struct Native {
    closures: HashMap<u64, Box<dyn FnMut()>>,
    cells: HashSet<u64>,
    stored: Option<u64>,
    pending: Option<Box<dyn FnMut()>>,
    calls: Vec<u64>,
}

impl Native {
    fn new() -> Native {
        Native {
            closures: HashMap::new(),
            cells: HashSet::new(),
            stored: None,
            pending: None,
            calls: Vec::new(),
        }
    }

    fn perform(&mut self, step: Step) {
        match step {
            Step::Deregister => self.stored = None,
            Step::FreeClosure(t) => {
                assert_ne!(self.stored, Some(t), "closure freed while registered");
                assert!(self.cells.contains(&t), "cell read after it was freed");
                assert!(self.closures.remove(&t).is_some(), "closure freed twice");
            }
            Step::FreeCell(t) => {
                assert_ne!(self.stored, Some(t), "cell freed while registered");
                assert!(self.cells.remove(&t), "cell freed twice");
            }
            Step::BoxClosure(t) => {
                assert!(!self.cells.contains(&t));
                let closure = self.pending.take().expect("a closure to box");
                assert!(self.closures.insert(t, closure).is_none());
            }
            Step::BoxCell(t) => {
                assert!(self.closures.contains_key(&t));
                assert!(self.cells.insert(t));
            }
            Step::Register(t) => {
                assert!(self.cells.contains(&t) && self.closures.contains_key(&t));
                self.stored = Some(t);
            }
            Step::Trigger => {
                let t = self.stored.expect("a trigger with something registered");
                assert!(self.cells.contains(&t), "trampoline read a freed cell");
                let closure = self.closures.get_mut(&t).expect("a live closure");
                closure();
                self.calls.push(t);
            }
        }
    }

    fn nothing_allocated(&self) -> bool {
        self.closures.is_empty() && self.cells.is_empty()
    }
}

/// The adapter together with the stand-in that carries out its plans.
struct Harness {
    adapter: Closure,
    native: Native,
}

impl Harness {
    fn new() -> Harness {
        Harness { adapter: Closure::new(), native: Native::new() }
    }

    fn run(&mut self, plan: Vec<Step>) {
        for step in plan {
            self.native.perform(step);
        }
    }

    fn register(&mut self, closure: impl FnMut() + 'static) {
        self.native.pending = Some(Box::new(closure));
        let plan = self.adapter.register();
        self.run(plan);
        assert!(self.native.pending.is_none());
    }

    fn trigger(&mut self) {
        let plan = self.adapter.trigger();
        self.run(plan);
    }

    fn dispose(&mut self) {
        let plan = self.adapter.dealloc_cb();
        self.run(plan);
    }
}

fn appender(log: &Rc<RefCell<Vec<String>>>, word: &'static str) -> impl FnMut() + 'static {
    let log = Rc::clone(log);
    move || log.borrow_mut().push(word.to_string())
}

#[test]
fn new_adapter_owns_nothing() {
    let adapter = Closure::new();
    assert_eq!(adapter.token(), None);
}

#[test]
fn first_registration_allocates_then_registers() {
    let mut adapter = Closure::new();
    let plan = adapter.register();
    assert_eq!(plan, vec![Step::BoxClosure(1), Step::BoxCell(1), Step::Register(1)]);
    assert_eq!(adapter.token(), Some(1));
}

#[test]
fn second_registration_tears_down_first() {
    let mut adapter = Closure::new();
    adapter.register();
    let plan = adapter.register();
    assert_eq!(
        plan,
        vec![
            Step::Deregister,
            Step::FreeClosure(1),
            Step::FreeCell(1),
            Step::BoxClosure(2),
            Step::BoxCell(2),
            Step::Register(2),
        ]
    );
    assert_eq!(adapter.token(), Some(2));
}

#[test]
fn tokens_are_not_reused_after_teardown() {
    let mut adapter = Closure::new();
    adapter.register();
    adapter.dealloc_cb();
    assert_eq!(adapter.token(), None);
    let plan = adapter.register();
    assert_eq!(plan, vec![Step::BoxClosure(2), Step::BoxCell(2), Step::Register(2)]);
    assert_eq!(adapter.token(), Some(2));
}

#[test]
fn teardown_deregisters_before_it_frees() {
    let mut adapter = Closure::new();
    adapter.register();
    let plan = adapter.dealloc_cb();
    assert_eq!(plan, vec![Step::Deregister, Step::FreeClosure(1), Step::FreeCell(1)]);
    assert_eq!(adapter.token(), None);
}

#[test]
fn teardown_of_unregistered_adapter_asks_for_nothing() {
    let mut adapter = Closure::new();
    assert_eq!(adapter.dealloc_cb(), Vec::<Step>::new());
    assert_eq!(adapter.token(), None);
}

#[test]
fn second_teardown_asks_for_nothing() {
    let mut h = Harness::new();
    h.register(|| {});
    h.dispose();
    assert!(h.native.nothing_allocated());
    assert_eq!(h.native.stored, None);
    assert_eq!(h.adapter.dealloc_cb(), Vec::<Step>::new());
    h.dispose();
    assert!(h.native.nothing_allocated());
}

#[test]
fn trigger_on_fresh_adapter_does_nothing() {
    let adapter = Closure::new();
    assert_eq!(adapter.trigger(), Vec::<Step>::new());
    let mut h = Harness::new();
    h.trigger();
    assert!(h.native.calls.is_empty());
    assert!(h.native.nothing_allocated());
    assert_eq!(h.native.stored, None);
}

#[test]
fn trigger_after_teardown_does_nothing() {
    let count = Rc::new(Cell::new(0u32));
    let seen = Rc::clone(&count);
    let mut h = Harness::new();
    h.register(move || seen.set(seen.get() + 1));
    h.trigger();
    h.dispose();
    assert_eq!(h.adapter.trigger(), Vec::<Step>::new());
    h.trigger();
    assert_eq!(count.get(), 1);
}

#[test]
fn trigger_on_registered_adapter_asks_for_one_invocation() {
    let mut adapter = Closure::new();
    adapter.register();
    assert_eq!(adapter.trigger(), vec![Step::Trigger]);
    assert_eq!(adapter.trigger(), vec![Step::Trigger]);
    assert_eq!(adapter.token(), Some(1));
}

#[test]
fn only_the_latest_closure_is_invoked() {
    let f_calls = Rc::new(Cell::new(0u32));
    let g_calls = Rc::new(Cell::new(0u32));
    let (f_seen, g_seen) = (Rc::clone(&f_calls), Rc::clone(&g_calls));
    let mut h = Harness::new();
    h.register(move || f_seen.set(f_seen.get() + 1));
    h.register(move || g_seen.set(g_seen.get() + 1));
    h.trigger();
    assert_eq!((f_calls.get(), g_calls.get()), (0, 1));
    h.trigger();
    assert_eq!((f_calls.get(), g_calls.get()), (0, 2));
    assert_eq!(h.native.calls, vec![2, 2]);
}

#[test]
fn replaced_closure_is_dropped() {
    let held = Rc::new(());
    let captured = Rc::clone(&held);
    let mut h = Harness::new();
    h.register(move || {
        let _keep = &captured;
    });
    assert_eq!(Rc::strong_count(&held), 2);
    h.register(|| {});
    assert_eq!(Rc::strong_count(&held), 1);
    assert_eq!(h.native.closures.len(), 1);
    assert_eq!(h.native.cells.len(), 1);
}

#[test]
fn three_triggers_count_to_three() {
    let count = Rc::new(Cell::new(0u32));
    let seen = Rc::clone(&count);
    let mut h = Harness::new();
    h.register(move || seen.set(seen.get() + 1));
    h.trigger();
    h.trigger();
    h.trigger();
    assert_eq!(count.get(), 3);
}

#[test]
fn log_follows_the_registered_closure() {
    let log: Rc<RefCell<Vec<String>>> = Rc::new(RefCell::new(Vec::new()));
    let mut h = Harness::new();
    h.register(appender(&log, "A"));
    h.trigger();
    assert_eq!(*log.borrow(), vec!["A".to_string()]);
    h.register(appender(&log, "B"));
    h.trigger();
    h.trigger();
    assert_eq!(*log.borrow(), vec!["A".to_string(), "B".to_string(), "B".to_string()]);
}

#[test]
fn native_layer_never_holds_freed_memory() {
    let mut h = Harness::new();
    for round in 0..5u64 {
        h.register(|| {});
        assert_eq!(h.native.stored, Some(round + 1));
        assert!(h.native.closures.contains_key(&(round + 1)));
        assert!(h.native.cells.contains(&(round + 1)));
        assert_eq!(h.native.closures.len(), 1);
        h.trigger();
    }
    h.dispose();
    assert_eq!(h.native.stored, None);
    assert!(h.native.nothing_allocated());
    assert_eq!(h.native.calls, vec![1, 2, 3, 4, 5]);
}
