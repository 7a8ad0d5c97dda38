use roguelike::fsm::{State, StateMachineBuilder, StateTransition};

struct TestEntity {
    pub state1: i32,
    pub state2: i32,
}

enum TestState {
    One,
    Two,
}

impl State for TestState {
    type Entity = TestEntity;

    fn new() -> Box<Self> {
        Box::new(TestState::One)
    }

    fn enter(&mut self, entity: &mut TestEntity) {
        match self {
            TestState::One => entity.state1 += 1,
            TestState::Two => entity.state2 += 2,
        }
    }

    fn execute(&mut self, entity: &mut TestEntity) -> StateTransition<TestState> {
        match self {
            TestState::One => {
                entity.state1 += 20;
                StateTransition::Switch(Box::new(TestState::Two))
            }
            TestState::Two => {
                entity.state2 += 30;
                StateTransition::Stay
            }
        }
    }

    fn exit(&mut self, entity: &mut TestEntity) {
        match self {
            TestState::One => entity.state1 *= 10,
            TestState::Two => entity.state2 *= 10,
        }
    }
}

#[test]
fn test_run() {
    let mut machine = StateMachineBuilder::<TestState>::new()
        .set_initial_state(Box::new(TestState::One))
        .build();
    let mut entity = TestEntity {
        state1: 0,
        state2: 0,
    };
    machine.update(&mut entity);
    machine.update(&mut entity);
    assert_eq!(entity.state1, 200);
    assert_eq!(entity.state2, 32);
}

#[test]
fn global_state_runs_before_current() {
    let mut machine = StateMachineBuilder::<TestState>::new()
        .set_global_state(Box::new(TestState::Two))
        .set_initial_state(Box::new(TestState::One))
        .build();
    let mut entity = TestEntity {
        state1: 0,
        state2: 0,
    };
    machine.update(&mut entity);
    // global Two: +30; current One: +20, then exit (*10) and enter Two (+2).
    assert_eq!(entity.state2, 32);
    assert_eq!(entity.state1, 200);
}

#[test]
fn empty_machine_does_nothing() {
    let mut machine = StateMachineBuilder::<TestState>::new().build();
    let mut entity = TestEntity {
        state1: 5,
        state2: 7,
    };
    machine.update(&mut entity);
    assert_eq!(entity.state1, 5);
    assert_eq!(entity.state2, 7);
}
