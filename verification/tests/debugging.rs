use async_executor::debug::{
    debug_executor, debug_state, DebugExecutor, DebugState, Field, StateParts, TryLock,
};
use async_executor::run::{Run, RunStep};
use async_executor::ticker::{Polled, Ticker};
use async_executor::Executor;

fn show(field: &Field) -> String {
    match field {
        Field::Number(n) => format!("{}", n),
        Field::List(lens) => format!("{:?}", lens),
        Field::Text(text) => format!("{}", text),
    }
}

fn show_state(state: &DebugState) -> Vec<String> {
    vec![
        show(&state.active),
        show(&state.global_tasks),
        show(&state.local_runners),
        show(&state.sleepers),
    ]
}

#[test]
fn an_unused_executor_is_uninitialized() {
    let ex: Executor<u32> = Executor::new();
    match debug_executor(ex.parts()) {
        DebugExecutor::Uninitialized(field) => assert_eq!(show(&field), "<uninitialized>"),
        DebugExecutor::State(_) => panic!("there is no state"),
    }
}

#[test]
fn a_used_executor_shows_its_numbers() {
    let mut ex: Executor<u32> = Executor::new();
    for task in 0..10 {
        ex.spawn(task);
    }
    let mut run = Run::new(ex.state());
    let _idle = Run::new(ex.state());
    assert!(matches!(ex.run(&mut run, &0), RunStep::Run(_)));
    ex.finish(0);
    match debug_executor(ex.parts()) {
        DebugExecutor::Uninitialized(_) => panic!("there is a state"),
        DebugExecutor::State(state) => {
            assert_eq!(show_state(&state), vec!["9", "4", "[5, 0]", "0"]);
        }
    }
}

#[test]
fn sleepers_are_shown() {
    let mut ex: Executor<u32> = Executor::new();
    let mut a = Ticker::new();
    let mut b = Ticker::new();
    assert!(matches!(ex.tick(&mut a, &1), Polled::Pending));
    assert!(matches!(ex.tick(&mut b, &2), Polled::Pending));
    match debug_executor(ex.parts()) {
        DebugExecutor::Uninitialized(_) => panic!("there is a state"),
        DebugExecutor::State(state) => {
            assert_eq!(show_state(&state), vec!["0", "0", "[]", "2"]);
        }
    }
}

#[test]
fn what_is_locked_is_not_waited_for() {
    let shown = debug_state(StateParts {
        active: TryLock::WouldBlock,
        global_tasks: 3,
        local_runners: TryLock::WouldBlock,
        sleepers: TryLock::WouldBlock,
    });
    assert_eq!(show_state(&shown), vec!["<locked>", "3", "<locked>", "<locked>"]);
}

#[test]
fn active_tasks_are_shown_though_poisoned() {
    let shown = debug_state(StateParts {
        active: TryLock::Poisoned(4),
        global_tasks: 3,
        local_runners: TryLock::Poisoned(vec![1, 2]),
        sleepers: TryLock::Poisoned(5),
    });
    assert_eq!(show_state(&shown), vec!["4", "3", "<poisoned>", "<poisoned>"]);
}

#[test]
fn parts_are_locked_one_by_one() {
    let shown = debug_state(StateParts {
        active: TryLock::Acquired(1),
        global_tasks: 2,
        local_runners: TryLock::WouldBlock,
        sleepers: TryLock::Poisoned(1),
    });
    assert_eq!(show_state(&shown), vec!["1", "2", "<locked>", "<poisoned>"]);
}
