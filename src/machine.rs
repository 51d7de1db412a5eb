use vstd::prelude::*;
use crate::systems::SimStatus;
use crate::components::SimError;
use crate::world::{pipeline_step, seed_error, seed_ok, seeded_as, Seed, World};

verus! {

/// A state of the tick state machine.
#[derive(Clone, Copy, Debug, PartialEq, Eq, Structural)]
pub enum Phase {
    /// Initial one-shot state: the store is seeded.
    Load,
    /// Idle, counting the times it regained control.
    Wait { iter: u64 },
    /// One pipeline pass for the given tick.
    Run { iter: u64 },
}

/// An input event as the state machine sees it.
#[derive(Clone, Copy, Debug, PartialEq, Eq, Structural)]
pub enum Event {
    /// Advance the simulation by one tick.
    Advance,
    /// Any other input; ignored.
    Other,
}

/// The simulation: the component store, the shared flag and the stack of
/// states, `Run` always pushed onto the `Wait` it returns to.
#[derive(Debug)]
pub struct Simulation {
    pub world: World,
    pub status: SimStatus,
    pub stack: Vec<Phase>,
}

impl Simulation {
    /// The active state.
    pub open spec fn top(&self) -> Phase {
        self.stack@.last()
    }

    /// The machine's invariant: the stack is `[Load]`, `[Wait]` or
    /// `[Wait, Run]` for the same tick; the flag is `Run` exactly while a
    /// `Run` state is active; the store is well formed.
    pub open spec fn wf(&self) -> bool {
        &&& self.world.wf()
        &&& self.stack@.len() == 1 || self.stack@.len() == 2
        &&& self.stack@.len() == 1 ==> (self.stack@[0] is Load || self.stack@[0] is Wait)
        &&& self.stack@.len() == 2 ==> {
            &&& self.stack@[0] is Wait
            &&& self.stack@[1] is Run
            &&& self.stack@[1]->Run_iter == self.stack@[0]->Wait_iter
        }
        &&& (self.status == SimStatus::Run) == (self.top() is Run)
    }

    /// Enters `Load`: seeds the store with one agent per seed over a good
    /// table of `n_goods` goods, and sets the flag to `Wait`. Fails, as
    /// `World::seeded` does, on the first unacceptable seed.
    pub fn load(n_goods: usize, seeds: Vec<Seed>) -> (r: Result<Simulation, SimError>)
        ensures
            r.is_ok() <==> forall|k: int| 0 <= k < seeds@.len() ==> seed_ok(n_goods, #[trigger] seeds@[k]),
            r.is_ok() ==> {
                let sim = r.unwrap();
                &&& sim.wf()
                &&& sim.status == SimStatus::Wait
                &&& sim.stack@ == seq![Phase::Load]
                &&& sim.world.n_goods == n_goods
                &&& sim.world.agents() == seeds@.len()
                &&& forall|k: int| 0 <= k < seeds@.len() ==> seeded_as(sim.world, k, #[trigger] seeds@[k])
            },
            r.is_err() ==> exists|k: int|
                0 <= k < seeds@.len() && !seed_ok(n_goods, #[trigger] seeds@[k])
                    && r == Err::<Simulation, SimError>(seed_error(n_goods, seeds@[k]))
                    && forall|j: int| 0 <= j < k ==> seed_ok(n_goods, seeds@[j]),
    {
        let world = match World::seeded(n_goods, seeds) {
            Ok(w) => w,
            Err(e) => {
                return Err(e);
            },
        };
        let mut stack: Vec<Phase> = Vec::new();
        stack.push(Phase::Load);
        Ok(Simulation { world, status: SimStatus::Wait, stack })
    }

    /// Hands one input event to the active state. In `Wait`, `Advance`
    /// pushes `Run` for the current tick and sets the flag to `Run`
    /// (returning `true`); every other case changes nothing.
    pub fn handle_event(&mut self, event: Event) -> (pushed: bool)
        requires
            old(self).wf(),
        ensures
            final(self).wf(),
            final(self).world == old(self).world,
            pushed == (old(self).top() is Wait && event == Event::Advance),
            pushed ==> {
                &&& final(self).stack@ == old(self).stack@.push(
                    Phase::Run { iter: old(self).top()->Wait_iter },
                )
                &&& final(self).status == SimStatus::Run
            },
            !pushed ==> *final(self) == *old(self),
    {
        let last = self.stack.len() - 1;
        match self.stack[last] {
            Phase::Wait { iter } => {
                if event == Event::Advance {
                    self.stack.push(Phase::Run { iter });
                    self.status = SimStatus::Run;
                    return true;
                }
                false
            },
            _ => false,
        }
    }

    /// Gives the active state its update. `Load` switches to `Wait` with
    /// a tick counter of zero. `Run` executes one pipeline pass, pops
    /// itself, restores the flag to `Wait`, and the resumed `Wait` counts
    /// one more tick. `Wait` does nothing.
    pub fn update(&mut self)
        requires
            old(self).wf(),
            old(self).top() is Run ==> old(self).top()->Run_iter < u64::MAX,
        ensures
            final(self).wf(),
            final(self).status == SimStatus::Wait,
            old(self).top() is Load ==> {
                &&& final(self).stack@ == seq![Phase::Wait { iter: 0 }]
                &&& final(self).world == old(self).world
            },
            old(self).top() is Wait ==> *final(self) == *old(self),
            old(self).top() is Run ==> {
                &&& final(self).stack@ == seq![Phase::Wait { iter: (old(self).top()->Run_iter + 1) as u64 }]
                &&& pipeline_step(old(self).world, final(self).world)
            },
    {
        let last = self.stack.len() - 1;
        match self.stack[last] {
            Phase::Load => {
                self.stack.set(last, Phase::Wait { iter: 0 });
            },
            Phase::Wait { .. } => {},
            Phase::Run { iter } => {
                self.world.run_pipeline(self.status);
                self.stack.pop();
                self.status = SimStatus::Wait;
                self.stack.set(0, Phase::Wait { iter: iter + 1 });
            },
        }
    }
}

/// The shared flag is `Run` exactly while a `Run` state is active: between
/// its entry and its exit. In any other state a system reading the flag
/// sees `Wait`.
pub proof fn lemma_flag_containment(sim: &Simulation)
    requires
        sim.wf(),
    ensures
        sim.status == SimStatus::Run <==> sim.top() is Run,
        !(sim.top() is Run) ==> sim.status == SimStatus::Wait,
{
}

} // verus!
