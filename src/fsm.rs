use vstd::prelude::*;

verus! {

/// What a state asks the machine to do after it has run.
pub enum StateTransition<S> {
    /// Stay in the current state.
    Stay,
    /// Enter a new state, remembering the current one.
    Push(Box<S>),
    /// Go back to the remembered state.
    Pop(),
    /// Replace the current state.
    Switch(Box<S>),
    /// Ask to stop; the machine itself does nothing.
    Exit(),
}

/// A state of an entity's behaviour. Implementations decide what entering,
/// running and leaving the state do to the entity.
pub trait State: Sized {
    type Entity;

    fn new() -> Box<Self>;

    fn enter(&mut self, entity: &mut Self::Entity);

    fn execute(&mut self, entity: &mut Self::Entity) -> StateTransition<Self>;

    fn exit(&mut self, entity: &mut Self::Entity);
}

/// A machine with a current state, a remembered previous state, and a
/// global state that runs before the current one on every update.
pub struct StateMachine<S: State> {
    current_state: Option<Box<S>>,
    previous_state: Option<Box<S>>,
    global_state: Option<Box<S>>,
}

pub struct StateMachineBuilder<S: State> {
    current_state: Option<Box<S>>,
    global_state: Option<Box<S>>,
}

impl<S: State> StateMachineBuilder<S> {
    pub closed spec fn current(&self) -> Option<Box<S>> {
        self.current_state
    }

    pub closed spec fn global(&self) -> Option<Box<S>> {
        self.global_state
    }

    /// A builder with no states set.
    pub fn new() -> (b: Self)
        ensures
            b.current() is None,
            b.global() is None,
    {
        StateMachineBuilder { current_state: None, global_state: None }
    }

    pub fn set_initial_state(self, state: Box<S>) -> (b: Self)
        ensures
            b.current() == Some(state),
            b.global() == self.global(),
    {
        let mut b = self;
        b.current_state = Some(state);
        b
    }

    pub fn set_global_state(self, state: Box<S>) -> (b: Self)
        ensures
            b.current() == self.current(),
            b.global() == Some(state),
    {
        let mut b = self;
        b.global_state = Some(state);
        b
    }

    /// The machine starts in the initial state, with nothing remembered.
    pub fn build(self) -> (m: StateMachine<S>)
        ensures
            m.current() == self.current(),
            m.global() == self.global(),
            m.previous() is None,
    {
        StateMachine {
            global_state: self.global_state,
            current_state: self.current_state,
            previous_state: None,
        }
    }
}

impl<S: State> StateMachine<S> {
    pub closed spec fn current(&self) -> Option<Box<S>> {
        self.current_state
    }

    pub closed spec fn previous(&self) -> Option<Box<S>> {
        self.previous_state
    }

    pub closed spec fn global(&self) -> Option<Box<S>> {
        self.global_state
    }

    /// Runs the global state and then the current state, each followed by
    /// the transition it asked for. The global state is never replaced, and
    /// a machine with neither state does nothing.
    pub fn update(&mut self, entity: &mut S::Entity)
        ensures
            final(self).global() is Some == old(self).global() is Some,
            old(self).global() is None && old(self).current() is None ==> *final(self) == *old(
                self,
            ) && *final(entity) == *old(entity),
    {
        let global_transition = match &mut self.global_state {
            Some(state) => state.execute(entity),
            None => StateTransition::Stay,
        };
        self.handle_transition(global_transition, entity);
        let current_transition = match &mut self.current_state {
            Some(state) => state.execute(entity),
            None => StateTransition::Stay,
        };
        self.handle_transition(current_transition, entity);
    }

    /// Applies a transition: `Push` remembers the current state and enters
    /// the new one, `Pop` returns to the remembered state, `Switch` replaces
    /// the current state; the state left is exited first and the state
    /// reached is entered. `Stay` and `Exit` change nothing.
    fn handle_transition(&mut self, transition: StateTransition<S>, entity: &mut S::Entity)
        ensures
            final(self).global() == old(self).global(),
            transition is Stay || transition is Exit ==> *final(self) == *old(self) && *final(entity)
                == *old(entity),
            transition is Push ==> final(self).current() is Some && final(self).previous() is Some
                == old(self).current() is Some,
            transition is Pop ==> final(self).previous() is None && final(self).current() is Some
                == old(self).previous() is Some,
            transition is Switch ==> final(self).current() is Some && final(self).previous() == old(
                self,
            ).previous(),
    {
        match transition {
            StateTransition::Stay => {},
            StateTransition::Push(state) => {
                self.exit_current_state(entity);
                self.previous_state = self.current_state.take();
                self.current_state = Some(state);
                self.enter_current_state(entity);
            },
            StateTransition::Pop() => {
                self.exit_current_state(entity);
                self.current_state = self.previous_state.take();
                self.enter_current_state(entity);
            },
            StateTransition::Switch(state) => {
                self.exit_current_state(entity);
                self.current_state = Some(state);
                self.enter_current_state(entity);
            },
            StateTransition::Exit() => {},
        }
    }

    /// Lets the current state (if any) leave; which states are set does not change.
    fn exit_current_state(&mut self, entity: &mut S::Entity)
        ensures
            final(self).current() is Some == old(self).current() is Some,
            final(self).previous() == old(self).previous(),
            final(self).global() == old(self).global(),
            old(self).current() is None ==> *final(entity) == *old(entity),
    {
        match &mut self.current_state {
            Some(state) => state.exit(entity),
            None => {},
        }
    }

    /// Lets the current state (if any) enter; which states are set does not change.
    fn enter_current_state(&mut self, entity: &mut S::Entity)
        ensures
            final(self).current() is Some == old(self).current() is Some,
            final(self).previous() == old(self).previous(),
            final(self).global() == old(self).global(),
            old(self).current() is None ==> *final(entity) == *old(entity),
    {
        match &mut self.current_state {
            Some(state) => state.enter(entity),
            None => {},
        }
    }
}

} // verus!
