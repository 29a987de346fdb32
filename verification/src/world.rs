use crate::step::Step;
use vstd::prelude::*;

verus! {

/// What lies outside the adapter: the heap as far as the adapter allocates on
/// it, the pair that the native layer stores, and the closures invoked so far.
pub struct World {
    /// Tokens whose boxed closure is allocated.
    pub closures: Set<u64>,
    /// Tokens whose cell is allocated.
    pub cells: Set<u64>,
    /// The token whose cell the native layer stores beside the trampoline.
    pub registered: Option<u64>,
    /// The tokens of the closures invoked, oldest first.
    pub calls: Seq<u64>,
}

impl World {
    /// The world before anything was allocated or registered.
    pub open spec fn initial() -> World {
        World { closures: Set::empty(), cells: Set::empty(), registered: None, calls: Seq::empty() }
    }

    /// Both allocations of `t` exist, so the trampoline may follow the cell
    /// to the closure.
    pub open spec fn live(self, t: u64) -> bool {
        self.cells.contains(t) && self.closures.contains(t)
    }

    /// The native layer stores nothing that has been freed.
    pub open spec fn sound(self) -> bool {
        match self.registered {
            Some(t) => self.live(t),
            None => true,
        }
    }

    /// Whether `s` can be carried out in this world without touching freed
    /// memory, freeing twice, leaving the native layer with a pointer to
    /// what is freed, or triggering while it stores nothing.
    pub open spec fn admits(self, s: Step) -> bool {
        match s {
            Step::Deregister => true,
            Step::FreeClosure(t) => self.live(t) && self.registered != Some(t),
            Step::FreeCell(t) => self.cells.contains(t) && self.registered != Some(t),
            Step::BoxClosure(t) => !self.closures.contains(t) && !self.cells.contains(t),
            Step::BoxCell(t) => self.closures.contains(t) && !self.cells.contains(t),
            Step::Register(t) => self.live(t),
            Step::Trigger => match self.registered {
                Some(t) => self.live(t),
                None => false,
            },
        }
    }

    /// The world after `s` was carried out.
    pub open spec fn apply(self, s: Step) -> World {
        match s {
            Step::Deregister => World { registered: None, ..self },
            Step::FreeClosure(t) => World { closures: self.closures.remove(t), ..self },
            Step::FreeCell(t) => World { cells: self.cells.remove(t), ..self },
            Step::BoxClosure(t) => World { closures: self.closures.insert(t), ..self },
            Step::BoxCell(t) => World { cells: self.cells.insert(t), ..self },
            Step::Register(t) => World { registered: Some(t), ..self },
            Step::Trigger => match self.registered {
                Some(t) => World { calls: self.calls.push(t), ..self },
                None => self,
            },
        }
    }

    /// The world after the first `n` steps of `steps`.
    pub open spec fn after(self, steps: Seq<Step>, n: int) -> World
        decreases n,
    {
        if n <= 0 {
            self
        } else {
            self.after(steps, n - 1).apply(steps[n - 1])
        }
    }

    /// The world after all of `steps`.
    pub open spec fn run(self, steps: Seq<Step>) -> World {
        self.after(steps, steps.len() as int)
    }

    /// Each of `steps` is admitted by the world that it meets.
    pub open spec fn admits_all(self, steps: Seq<Step>) -> bool {
        forall|i: int| 0 <= i < steps.len() ==> #[trigger] self.after(steps, i).admits(steps[i])
    }

    /// Same heap and same registration; the log of calls may differ.
    pub open spec fn same_memory(self, other: World) -> bool {
        &&& self.closures =~= other.closures
        &&& self.cells =~= other.cells
        &&& self.registered == other.registered
    }
}

} // verus!
