use async_executor::queue::steal;
use async_executor::run::{Run, RunStep};
use async_executor::runner::Runner;
use async_executor::state::State;
use async_executor::ticker::Polled;
use concurrent_queue::ConcurrentQueue;
use fastrand::Rng;

fn filled(queue: ConcurrentQueue<u64>, tasks: &[u64]) -> ConcurrentQueue<u64> {
    for task in tasks {
        assert!(queue.push(*task).is_ok());
    }
    queue
}

fn contents(queue: &ConcurrentQueue<u64>) -> Vec<u64> {
    queue.try_iter().collect()
}

fn next(runner: &mut Runner, state: &mut State<u32>, rng: &mut Rng) -> Option<u64> {
    match runner.runnable(state, rng, &0) {
        Polled::Ready(tick) => Some(tick.task),
        Polled::Pending => None,
    }
}

#[test]
fn half_is_stolen_rounded_up() {
    let mut src = filled(ConcurrentQueue::unbounded(), &[1, 2, 3, 4, 5]);
    let mut dest = filled(ConcurrentQueue::bounded(10), &[9]);
    steal(&mut src, &mut dest);
    assert_eq!(contents(&dest), vec![9, 1, 2, 3]);
    assert_eq!(contents(&src), vec![4, 5]);
}

#[test]
fn an_even_number_is_halved() {
    let mut src = filled(ConcurrentQueue::unbounded(), &[1, 2, 3, 4]);
    let mut dest = filled(ConcurrentQueue::unbounded(), &[]);
    steal(&mut src, &mut dest);
    assert_eq!(contents(&dest), vec![1, 2]);
    assert_eq!(contents(&src), vec![3, 4]);
}

#[test]
fn nothing_is_stolen_from_an_empty_queue() {
    let mut src = filled(ConcurrentQueue::unbounded(), &[]);
    let mut dest = filled(ConcurrentQueue::bounded(2), &[1]);
    steal(&mut src, &mut dest);
    assert_eq!(contents(&dest), vec![1]);
}

#[test]
fn no_more_is_stolen_than_fits() {
    let mut src = filled(ConcurrentQueue::unbounded(), &[1, 2, 3, 4, 5, 6]);
    let mut dest = filled(ConcurrentQueue::bounded(3), &[8, 9]);
    steal(&mut src, &mut dest);
    assert_eq!(contents(&dest), vec![8, 9, 1]);
    assert_eq!(contents(&src), vec![2, 3, 4, 5, 6]);

    let mut src = filled(ConcurrentQueue::unbounded(), &[1, 2]);
    let mut dest = filled(ConcurrentQueue::bounded(1), &[7]);
    steal(&mut src, &mut dest);
    assert_eq!(contents(&dest), vec![7]);
    assert_eq!(contents(&src), vec![1, 2]);
}

#[test]
fn a_runner_takes_half_of_the_global_queue() {
    let mut state: State<u32> = State::new();
    let mut rng = Rng::new();
    for task in 0..10 {
        state.schedule(task);
    }
    let mut runner = Runner::new(&mut state);
    // One to run, and five of the nine that are left.
    assert_eq!(next(&mut runner, &mut state, &mut rng), Some(0));
    assert_eq!(state.global_tasks(), 4);
    assert_eq!(state.local_runners(), vec![5]);
    // Its own tasks come first.
    assert_eq!(next(&mut runner, &mut state, &mut rng), Some(1));
    assert_eq!(state.global_tasks(), 4);
    assert_eq!(state.local_runners(), vec![4]);
}

#[test]
fn a_local_queue_does_not_overflow() {
    let mut state: State<u32> = State::new();
    let mut rng = Rng::new();
    for task in 0..3000 {
        state.schedule(task);
    }
    let mut runner = Runner::new(&mut state);
    assert_eq!(next(&mut runner, &mut state, &mut rng), Some(0));
    assert_eq!(state.local_runners(), vec![512]);
    assert_eq!(state.global_tasks(), 2487);
}

#[test]
fn every_so_often_the_global_queue_is_stolen_from() {
    let mut state: State<u32> = State::new();
    let mut rng = Rng::new();
    for task in 0..200 {
        state.schedule(task);
    }
    let mut runner = Runner::new(&mut state);
    for task in 0..63 {
        assert_eq!(next(&mut runner, &mut state, &mut rng), Some(task));
    }
    // 199 were left behind the first, of which 100 were stolen and 62 have been run.
    assert_eq!(state.local_runners(), vec![38]);
    assert_eq!(state.global_tasks(), 99);
    // With the 64th task, 50 more are stolen.
    assert_eq!(next(&mut runner, &mut state, &mut rng), Some(63));
    assert_eq!(state.local_runners(), vec![87]);
    assert_eq!(state.global_tasks(), 49);
}

#[test]
fn a_runner_robs_another() {
    let mut state: State<u32> = State::new();
    let mut rng = Rng::new();
    for task in 0..4 {
        state.schedule(task);
    }
    let mut rich = Runner::new(&mut state);
    let mut poor = Runner::new(&mut state);
    assert_eq!(next(&mut rich, &mut state, &mut rng), Some(0));
    assert_eq!(next(&mut rich, &mut state, &mut rng), Some(1));
    assert_eq!(next(&mut rich, &mut state, &mut rng), Some(2));
    assert_eq!(next(&mut rich, &mut state, &mut rng), Some(3));
    for task in 10..15 {
        state.schedule(task);
    }
    assert_eq!(next(&mut rich, &mut state, &mut rng), Some(10));
    assert_eq!(state.local_runners(), vec![2, 0]);
    while state.try_tick().is_some() {}
    // Only the queue of the first runner has tasks: 11 and 12.
    assert_eq!(next(&mut poor, &mut state, &mut rng), Some(11));
    assert_eq!(state.local_runners(), vec![1, 0]);
    assert_eq!(next(&mut poor, &mut state, &mut rng), Some(12));
    assert_eq!(next(&mut poor, &mut state, &mut rng), None);
    assert_eq!(next(&mut rich, &mut state, &mut rng), None);
    assert_eq!(state.sleeping(), 2);
}

/// Two runners with tasks of their own, and one without.
fn three_runners(state: &mut State<u32>) -> Runner {
    let mut rng = Rng::new();
    let mut first = Runner::new(state);
    let mut second = Runner::new(state);
    let third = Runner::new(state);
    for task in [1, 10, 11] {
        state.schedule(task);
    }
    assert_eq!(next(&mut first, state, &mut rng), Some(1));
    assert_eq!(state.try_tick().unwrap().task, 11);
    for task in [2, 20, 21] {
        state.schedule(task);
    }
    assert_eq!(next(&mut second, state, &mut rng), Some(2));
    assert_eq!(state.try_tick().unwrap().task, 21);
    assert_eq!(state.local_runners(), vec![1, 1, 0]);
    third
}

#[test]
fn queues_are_looked_at_in_a_circle() {
    let mut state: State<u32> = State::new();
    let third = three_runners(&mut state);
    assert_eq!(third.steal_from_others(&mut state, 1), Some(20));
    assert_eq!(state.local_runners(), vec![1, 0, 0]);
    assert_eq!(third.steal_from_others(&mut state, 1), Some(10));
    assert_eq!(third.steal_from_others(&mut state, 1), None);

    let mut state: State<u32> = State::new();
    let third = three_runners(&mut state);
    assert_eq!(third.steal_from_others(&mut state, 2), Some(10));

    let mut state: State<u32> = State::new();
    let third = three_runners(&mut state);
    assert_eq!(third.steal_from_others(&mut state, 0), Some(10));
}

#[test]
fn the_first_victim_is_left_to_chance() {
    let mut robbed_first = 0;
    let mut robbed_second = 0;
    for seed in 0..300 {
        let mut state: State<u32> = State::new();
        let mut third = three_runners(&mut state);
        match next(&mut third, &mut state, &mut Rng::with_seed(seed)) {
            Some(10) => robbed_first += 1,
            Some(20) => robbed_second += 1,
            other => panic!("unexpected {:?}", other),
        }
    }
    assert!(robbed_first > 0);
    assert!(robbed_second > 0);
}

#[test]
fn a_dropped_runner_gives_its_tasks_back() {
    let mut state: State<u32> = State::new();
    let mut rng = Rng::new();
    let mut sleeper = Runner::new(&mut state);
    assert!(matches!(sleeper.runnable(&mut state, &mut rng, &77), Polled::Pending));
    let mut runner = Runner::new(&mut state);
    assert_eq!(state.schedule(1), Some(77));
    for task in 2..8 {
        assert_eq!(state.schedule(task), None);
    }
    assert_eq!(next(&mut runner, &mut state, &mut rng), Some(1));
    assert_eq!(state.local_runners(), vec![0, 3]);
    assert_eq!(state.global_tasks(), 3);
    // The other runner has been notified already.
    assert_eq!(runner.drop(&mut state), Vec::<u32>::new());
    assert_eq!(state.local_runners(), vec![0]);
    let mut left = Vec::new();
    while let Some(tick) = state.try_tick() {
        left.push(tick.task);
    }
    assert_eq!(left, vec![5, 6, 7, 2, 3, 4]);
}

#[test]
fn a_dropped_runner_wakes_another_for_its_tasks() {
    let mut state: State<u32> = State::new();
    let mut rng = Rng::new();
    let mut runner = Runner::new(&mut state);
    for task in 1..4 {
        state.schedule(task);
    }
    assert_eq!(next(&mut runner, &mut state, &mut rng), Some(1));
    let mut ticker = async_executor::ticker::Ticker::new();
    assert!(ticker.sleep(&mut state, &55));
    assert_eq!(runner.drop(&mut state), vec![55]);
    assert_eq!(state.global_tasks(), 2);
}

#[test]
fn a_dropped_sleeping_runner_passes_its_notification_on() {
    let mut state: State<u32> = State::new();
    let mut rng = Rng::new();
    let mut a = Runner::new(&mut state);
    let mut b = Runner::new(&mut state);
    assert!(matches!(a.runnable(&mut state, &mut rng, &1), Polled::Pending));
    assert!(matches!(b.runnable(&mut state, &mut rng, &2), Polled::Pending));
    assert_eq!(state.schedule(5), Some(1));
    assert_eq!(a.drop(&mut state), vec![2]);
    assert_eq!(next(&mut b, &mut state, &mut rng), Some(5));
}

#[test]
fn identifiers_of_runners_do_not_clash() {
    let mut state: State<u32> = State::new();
    let mut rng = Rng::new();
    let a = Runner::new(&mut state);
    let mut b = Runner::new(&mut state);
    assert_eq!(a.drop(&mut state), Vec::<u32>::new());
    let mut c = Runner::new(&mut state);
    for task in 0..4 {
        state.schedule(task);
    }
    assert_eq!(next(&mut b, &mut state, &mut rng), Some(0));
    assert_eq!(state.local_runners(), vec![2, 0]);
    assert_eq!(next(&mut c, &mut state, &mut rng), Some(3));
    assert_eq!(c.drop(&mut state), Vec::<u32>::new());
    assert_eq!(state.local_runners(), vec![2]);
}

#[test]
fn no_task_is_lost_or_run_twice() {
    let mut state: State<u32> = State::new();
    for task in 0..1000 {
        state.schedule(task);
    }
    let mut runs: Vec<Run> = Vec::new();
    for _ in 0..4 {
        runs.push(Run::new(&mut state));
    }
    let mut served = Vec::new();
    let mut turn = 0;
    let mut pending = 0;
    while pending < 4 {
        match state.run(&mut runs[turn % 4], &0) {
            RunStep::Run(tick) => {
                served.push(tick.task);
                pending = 0;
            }
            RunStep::Yield => {}
            RunStep::Pending => pending += 1,
        }
        turn += 1;
        if turn == 500 {
            runs.swap_remove(1).drop(&mut state);
            runs.push(Run::new(&mut state));
        }
    }
    served.sort();
    assert_eq!(served, (0..1000).collect::<Vec<u64>>());
    assert_eq!(state.sleeping(), 4);
}

#[test]
fn a_runner_with_tasks_of_its_own_is_awake() {
    let mut state: State<u32> = State::new();
    let mut rng = Rng::new();
    let mut runner = Runner::new(&mut state);
    let mut other = Runner::new(&mut state);
    assert_eq!(next(&mut runner, &mut state, &mut rng), None);
    assert_eq!(state.sleeping(), 1);
    for task in 0..5 {
        state.schedule(task);
    }
    // It wakes up with its first task, and its queue is filled only then.
    assert_eq!(next(&mut runner, &mut state, &mut rng), Some(0));
    assert_eq!(state.local_runners(), vec![2, 0]);
    assert_eq!(state.sleeping(), 0);
    // A ticker sleeps, as the global queue is empty, but the runner is awake.
    while state.try_tick().is_some() {}
    let mut ticker = async_executor::ticker::Ticker::new();
    assert!(matches!(ticker.runnable(&mut state, &5), Polled::Pending));
    assert_eq!(state.local_runners(), vec![2, 0]);
    assert_eq!(state.sleeping(), 1);
    // Others only take from its queue.
    assert_eq!(next(&mut other, &mut state, &mut rng), Some(1));
    assert_eq!(state.local_runners(), vec![1, 0]);
    assert_eq!(next(&mut runner, &mut state, &mut rng), Some(2));
    // It sleeps again when no queue has a task.
    assert_eq!(next(&mut runner, &mut state, &mut rng), None);
    assert_eq!(state.local_runners(), vec![0, 0]);
}

#[test]
fn the_first_runner_brings_no_task() {
    let mut state: State<u32> = State::new();
    state.schedule(1);
    let runner = Runner::new(&mut state);
    assert_eq!(state.local_runners(), vec![0]);
    assert_eq!(state.global_tasks(), 1);
    assert_eq!(runner.drop(&mut state), Vec::<u32>::new());
    assert_eq!(state.local_runners(), Vec::<usize>::new());
    assert_eq!(state.global_tasks(), 1);
}
