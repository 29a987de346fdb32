use crate::step::{next_token, Step};
use vstd::prelude::*;

verus! {

/// The adapter as contracts see it.
pub struct Adapter {
    /// The token given out last; 0 before the first registration.
    pub last: u64,
    /// Whether the registration under `last` is still in place.
    pub active: bool,
}

impl Adapter {
    /// The adapter before its first registration.
    pub open spec fn empty() -> Adapter {
        Adapter { last: 0, active: false }
    }

    /// The token of the closure that the adapter owns, if it owns one.
    pub open spec fn slot(self) -> Option<u64> {
        if self.active {
            Some(self.last)
        } else {
            None
        }
    }

    /// The token that the next registration gets.
    pub open spec fn fresh(self) -> u64 {
        next_token(self.last)
    }

    /// The adapter after teardown: the slot is empty, no token is forgotten.
    pub open spec fn torn_down(self) -> Adapter {
        Adapter { last: self.last, active: false }
    }

    /// The adapter after a registration: it owns the closure under the
    /// fresh token.
    pub open spec fn registered(self) -> Adapter {
        Adapter { last: self.fresh(), active: true }
    }

    /// What teardown asks for: nothing on an empty slot; else to deregister
    /// first, then to free the boxed closure, then its cell.
    pub open spec fn teardown_plan(self) -> Seq<Step> {
        match self.slot() {
            Some(t) => seq![Step::Deregister, Step::FreeClosure(t), Step::FreeCell(t)],
            None => Seq::empty(),
        }
    }

    /// What a registration asks for: teardown of what is owned, then the two
    /// allocations under the fresh token, then the registration itself.
    pub open spec fn register_plan(self) -> Seq<Step> {
        self.teardown_plan() + seq![
            Step::BoxClosure(self.fresh()),
            Step::BoxCell(self.fresh()),
            Step::Register(self.fresh()),
        ]
    }

    /// What a trigger asks for: one invocation while a closure is owned,
    /// nothing on an empty slot.
    pub open spec fn trigger_plan(self) -> Seq<Step> {
        if self.active {
            seq![Step::Trigger]
        } else {
            Seq::empty()
        }
    }
}

/// Owns at most one closure registered with the native layer.
///
/// Every method returns the steps that the caller has to carry out, in
/// order, before it calls the adapter again.
pub struct Closure {
    last: u64,
    active: bool,
}

impl View for Closure {
    type V = Adapter;

    closed spec fn view(&self) -> Adapter {
        Adapter { last: self.last, active: self.active }
    }
}

impl Closure {
    /// An adapter with an empty slot.
    pub fn new() -> (c: Closure)
        ensures
            c@ == Adapter::empty(),
    {
        Closure { last: 0, active: false }
    }

    /// The token of the closure that the adapter owns, if it owns one.
    pub fn token(&self) -> (t: Option<u64>)
        ensures
            t == self@.slot(),
    {
        if self.active {
            Some(self.last)
        } else {
            None
        }
    }

    /// Gives up the closure that the adapter owns, if any. To be called, and
    /// its steps carried out, before the adapter is dropped.
    pub fn dealloc_cb(&mut self) -> (plan: Vec<Step>)
        ensures
            plan@ == old(self)@.teardown_plan(),
            final(self)@ == old(self)@.torn_down(),
    {
        let mut plan: Vec<Step> = Vec::new();
        if self.active {
            plan.push(Step::Deregister);
            plan.push(Step::FreeClosure(self.last));
            plan.push(Step::FreeCell(self.last));
            self.active = false;
        }
        assert(plan@ =~= old(self)@.teardown_plan());
        plan
    }

    /// Takes a new closure in place of the one that the adapter owns. The
    /// closure itself stays with the caller, who boxes it when the plan
    /// says so.
    pub fn register(&mut self) -> (plan: Vec<Step>)
        ensures
            plan@ == old(self)@.register_plan(),
            final(self)@ == old(self)@.registered(),
    {
        let mut plan: Vec<Step> = self.dealloc_cb();
        let fresh: u64 = if self.last == u64::MAX {
            0
        } else {
            self.last + 1
        };
        plan.push(Step::BoxClosure(fresh));
        plan.push(Step::BoxCell(fresh));
        plan.push(Step::Register(fresh));
        self.last = fresh;
        self.active = true;
        assert(plan@ =~= old(self)@.register_plan());
        plan
    }

    /// Asks for one invocation of the closure that the adapter owns, and for
    /// nothing when it owns none.
    pub fn trigger(&self) -> (plan: Vec<Step>)
        ensures
            plan@ == self@.trigger_plan(),
    {
        let mut plan: Vec<Step> = Vec::new();
        if self.active {
            plan.push(Step::Trigger);
        }
        assert(plan@ =~= self@.trigger_plan());
        plan
    }
}

} // verus!
