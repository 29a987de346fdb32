use crate::closure::Adapter;
use crate::step::Step;
use crate::world::World;
use vstd::prelude::*;

verus! {

/// The world holds what the adapter believes it owns, and nothing else: with
/// an empty slot nothing is allocated or registered; with a token in the
/// slot, exactly its closure and its cell are allocated and the native layer
/// stores that cell.
pub open spec fn agrees(a: Adapter, w: World) -> bool {
    match a.slot() {
        Some(t) => {
            &&& w.registered == Some(t)
            &&& w.closures =~= set![t]
            &&& w.cells =~= set![t]
        },
        None => {
            &&& w.registered is None
            &&& w.closures =~= Set::<u64>::empty()
            &&& w.cells =~= Set::<u64>::empty()
        },
    }
}

/// The world after `n` triggers of the adapter `a` in a row.
pub open spec fn triggered(a: Adapter, w: World, n: nat) -> World
    decreases n,
{
    if n == 0 {
        w
    } else {
        triggered(a, w, (n - 1) as nat).run(a.trigger_plan())
    }
}

/// One call made on the adapter.
pub enum Call {
    /// A registration of a new closure.
    Register,
    /// A trigger.
    Trigger,
    /// A teardown, as on disposal.
    Teardown,
}

/// The steps that the adapter `a` asks for when `c` is called on it.
pub open spec fn plan_of(a: Adapter, c: Call) -> Seq<Step> {
    match c {
        Call::Register => a.register_plan(),
        Call::Trigger => a.trigger_plan(),
        Call::Teardown => a.teardown_plan(),
    }
}

/// The adapter `a` after `c` was called on it.
pub open spec fn after_call(a: Adapter, c: Call) -> Adapter {
    match c {
        Call::Register => a.registered(),
        Call::Trigger => a,
        Call::Teardown => a.torn_down(),
    }
}

/// A fresh adapter after the first `n` of `calls`.
pub open spec fn adapter_after(calls: Seq<Call>, n: int) -> Adapter
    decreases n,
{
    if n <= 0 {
        Adapter::empty()
    } else {
        after_call(adapter_after(calls, n - 1), calls[n - 1])
    }
}

/// The untouched world after the plans of the first `n` of `calls`, made on
/// a fresh adapter, were carried out.
pub open spec fn world_after(calls: Seq<Call>, n: int) -> World
    decreases n,
{
    if n <= 0 {
        World::initial()
    } else {
        world_after(calls, n - 1).run(plan_of(adapter_after(calls, n - 1), calls[n - 1]))
    }
}

/// A freshly created adapter agrees with the untouched world.
pub proof fn lemma_new_agrees()
    ensures
        agrees(Adapter::empty(), World::initial()),
        World::initial().sound(),
{
}

/// Two registrations in a row never share a token.
pub proof fn lemma_fresh_token_differs(a: Adapter)
    ensures
        a.fresh() != a.last,
        a.slot() != Some(a.fresh()),
        a.registered().slot() == Some(a.fresh()),
        a.registered().fresh() != a.fresh(),
{
}

/// Teardown is free of hazards and leaves nothing behind: every step is
/// admitted, afterwards nothing is allocated and nothing registered, and no
/// closure was invoked on the way.
pub proof fn lemma_teardown(a: Adapter, w: World)
    requires
        agrees(a, w),
    ensures
        w.admits_all(a.teardown_plan()),
        agrees(a.torn_down(), w.run(a.teardown_plan())),
        w.run(a.teardown_plan()).calls == w.calls,
        w.run(a.teardown_plan()).sound(),
{
    reveal_with_fuel(World::after, 4);
}

/// Teardown is idempotent: on an adapter that was never registered, and on
/// one that was just torn down, it asks for nothing and changes nothing.
pub proof fn lemma_teardown_idempotent(a: Adapter, w: World)
    ensures
        Adapter::empty().teardown_plan() == Seq::<Step>::empty(),
        Adapter::empty().torn_down() == Adapter::empty(),
        a.torn_down().teardown_plan() == Seq::<Step>::empty(),
        a.torn_down().torn_down() == a.torn_down(),
        w.run(a.torn_down().teardown_plan()) == w,
        w.admits_all(a.torn_down().teardown_plan()),
{
    reveal_with_fuel(World::after, 1);
}

/// The native layer lets go of a token before any of its memory is freed:
/// whenever a step of teardown or of a registration frees something, the
/// world that the step meets has that token no longer registered.
pub proof fn lemma_deregistered_before_free(a: Adapter, w: World, i: int, t: u64)
    requires
        agrees(a, w),
        0 <= i < a.register_plan().len(),
        a.register_plan()[i] == Step::FreeClosure(t) || a.register_plan()[i] == Step::FreeCell(t),
    ensures
        i < a.teardown_plan().len(),
        a.teardown_plan()[i] == a.register_plan()[i],
        w.after(a.teardown_plan(), i) == w.after(a.register_plan(), i),
        w.after(a.register_plan(), i).registered != Some(t),
        exists|j: int| 0 <= j < i && a.register_plan()[j] == Step::Deregister,
{
    reveal_with_fuel(World::after, 4);
    assert(a.register_plan()[0] == Step::Deregister);
}

/// A registration is free of hazards and leaves exactly one registration in
/// place: every step is admitted, afterwards the fresh token alone is
/// allocated and registered, and no closure was invoked on the way.
pub proof fn lemma_register(a: Adapter, w: World)
    requires
        agrees(a, w),
    ensures
        w.admits_all(a.register_plan()),
        agrees(a.registered(), w.run(a.register_plan())),
        w.run(a.register_plan()).registered == Some(a.fresh()),
        w.run(a.register_plan()).calls == w.calls,
        w.run(a.register_plan()).sound(),
{
    reveal_with_fuel(World::after, 7);
}

/// A trigger on an adapter with an empty slot, such as a fresh one, asks for
/// nothing: the world stays as it is and no closure is invoked.
pub proof fn lemma_trigger_on_empty(a: Adapter, w: World)
    requires
        a.slot() is None,
    ensures
        Adapter::empty().trigger_plan() == Seq::<Step>::empty(),
        a.trigger_plan() == Seq::<Step>::empty(),
        w.run(a.trigger_plan()) == w,
        w.admits_all(a.trigger_plan()),
{
    reveal_with_fuel(World::after, 1);
}

/// A trigger on an adapter that owns a closure invokes that closure exactly
/// once and changes nothing else.
pub proof fn lemma_trigger(a: Adapter, w: World, t: u64)
    requires
        agrees(a, w),
        a.slot() == Some(t),
    ensures
        w.admits_all(a.trigger_plan()),
        w.run(a.trigger_plan()).calls == w.calls.push(t),
        w.run(a.trigger_plan()).same_memory(w),
        agrees(a, w.run(a.trigger_plan())),
{
    reveal_with_fuel(World::after, 2);
}

/// Only the closure registered last is ever invoked: after two
/// registrations in a row, the first closure is freed, its token differs
/// from the second one's, and each trigger invokes the second closure, once.
pub proof fn lemma_single_active_registration(a: Adapter, w: World)
    requires
        agrees(a, w),
    ensures
        ({
            let f = a.fresh();
            let g = a.registered().fresh();
            let both = a.registered().registered();
            let w2 = w.run(a.register_plan()).run(a.registered().register_plan());
            &&& f != g
            &&& both.slot() == Some(g)
            &&& w2.registered == Some(g)
            &&& !w2.closures.contains(f)
            &&& !w2.cells.contains(f)
            &&& w2.calls == w.calls
            &&& w2.run(both.trigger_plan()).calls == w.calls.push(g)
            &&& forall|n: nat| #[trigger]
                triggered(both, w2, n).calls == w.calls + Seq::new(n, |i: int| g)
        }),
{
    let a1 = a.registered();
    let a2 = a1.registered();
    let w1 = w.run(a.register_plan());
    lemma_register(a, w);
    lemma_register(a1, w1);
    let w2 = w1.run(a1.register_plan());
    lemma_trigger(a2, w2, a1.fresh());
    assert forall|n: nat| #[trigger]
        triggered(a2, w2, n).calls == w.calls + Seq::new(n, |i: int| a1.fresh()) by {
        lemma_repeated_trigger(a2, w2, a1.fresh(), n);
    }
}

/// Triggers repeat: `n` triggers in a row invoke the owned closure `n`
/// times and nothing else, and leave heap and registration as they were.
pub proof fn lemma_repeated_trigger(a: Adapter, w: World, t: u64, n: nat)
    requires
        agrees(a, w),
        a.slot() == Some(t),
    ensures
        triggered(a, w, n).calls == w.calls + Seq::new(n, |i: int| t),
        triggered(a, w, n).calls.len() == w.calls.len() + n,
        triggered(a, w, n).same_memory(w),
        agrees(a, triggered(a, w, n)),
    decreases n,
{
    if n == 0 {
        assert(w.calls =~= w.calls + Seq::new(0, |i: int| t));
    } else {
        let m = (n - 1) as nat;
        lemma_repeated_trigger(a, w, t, m);
        let before = triggered(a, w, m);
        lemma_trigger(a, before, t);
        assert(before.calls.push(t) =~= w.calls + Seq::new(n, |i: int| t));
    }
}

/// A step that the world admits leaves it sound: the native layer still
/// stores nothing that has been freed.
pub proof fn lemma_admitted_step_keeps_sound(w: World, s: Step)
    requires
        w.sound(),
        w.admits(s),
    ensures
        w.apply(s).sound(),
{
}

/// While a plan is carried out whose steps are all admitted, the world is
/// sound after each of them.
pub proof fn lemma_admitted_plan_keeps_sound(w: World, steps: Seq<Step>, n: int)
    requires
        w.sound(),
        w.admits_all(steps),
        0 <= n <= steps.len(),
    ensures
        w.after(steps, n).sound(),
    decreases n,
{
    if n > 0 {
        lemma_admitted_plan_keeps_sound(w, steps, n - 1);
        assert(w.after(steps, n - 1).admits(steps[n - 1]));
        lemma_admitted_step_keeps_sound(w.after(steps, n - 1), steps[n - 1]);
    }
}

/// Each call keeps adapter and world in agreement and asks only for steps
/// that the world admits. A closure is invoked only by a trigger, and then
/// it is the one in the slot.
pub proof fn lemma_call(a: Adapter, w: World, c: Call)
    requires
        agrees(a, w),
    ensures
        w.admits_all(plan_of(a, c)),
        agrees(after_call(a, c), w.run(plan_of(a, c))),
        w.run(plan_of(a, c)).sound(),
        w.run(plan_of(a, c)).calls == match (c, a.slot()) {
            (Call::Trigger, Some(t)) => w.calls.push(t),
            _ => w.calls,
        },
{
    match c {
        Call::Register => lemma_register(a, w),
        Call::Teardown => lemma_teardown(a, w),
        Call::Trigger => {
            match a.slot() {
                Some(t) => lemma_trigger(a, w, t),
                None => lemma_trigger_on_empty(a, w),
            }
        },
    }
}

/// Whatever is called on an adapter, in whatever order: the world holds
/// exactly what the adapter believes it owns, it is sound, and the steps of
/// the next call are all admitted.
pub proof fn lemma_every_history_is_safe(calls: Seq<Call>, n: int)
    requires
        0 <= n <= calls.len(),
    ensures
        agrees(adapter_after(calls, n), world_after(calls, n)),
        world_after(calls, n).sound(),
        n < calls.len() ==> world_after(calls, n).admits_all(
            plan_of(adapter_after(calls, n), calls[n]),
        ),
    decreases n,
{
    if n > 0 {
        lemma_every_history_is_safe(calls, n - 1);
    }
    let a = adapter_after(calls, n);
    let w = world_after(calls, n);
    if n > 0 {
        let a0 = adapter_after(calls, n - 1);
        let w0 = world_after(calls, n - 1);
        lemma_call(a0, w0, calls[n - 1]);
    }
    if n < calls.len() {
        lemma_call(a, w, calls[n]);
    }
}

} // verus!
