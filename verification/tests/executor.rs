use async_executor::run::{Run, RunStep, RUN_BATCH};
use async_executor::ticker::{Polled, Ticker};
use async_executor::{Executor, LocalExecutor};
use std::collections::HashMap;
use std::sync::{Arc, Mutex};

#[test]
fn is_empty_until_spawned_and_again_when_finished() {
    let mut ex: Executor<u32> = Executor::new();
    assert!(ex.is_empty());

    let spawned = ex.spawn(7);
    assert!(!ex.is_empty());

    assert_eq!(ex.try_tick().map(|tick| tick.task), Some(7));
    assert_eq!(ex.finish(spawned.key), Some(7));
    assert!(ex.is_empty());
}

#[test]
fn local_is_empty_until_spawned_and_again_when_finished() {
    let mut ex: LocalExecutor<u32> = LocalExecutor::new();
    assert!(ex.is_empty());

    let spawned = ex.spawn(7);
    assert!(!ex.is_empty());

    assert_eq!(ex.try_tick().map(|tick| tick.task), Some(7));
    assert_eq!(ex.inner().finish(spawned.key), Some(7));
    assert!(ex.is_empty());
}

#[test]
fn try_tick_needs_a_task() {
    let mut ex: Executor<u32> = Executor::new();
    assert!(ex.try_tick().is_none()); // no tasks to run

    ex.spawn(1);
    assert!(ex.try_tick().is_some()); // a task was found
    assert!(ex.try_tick().is_none());
}

#[test]
fn local_try_tick_needs_a_task() {
    let mut ex: LocalExecutor<u32> = LocalExecutor::default();
    assert!(ex.try_tick().is_none()); // no tasks to run

    ex.spawn(1);
    assert!(ex.try_tick().is_some()); // a task was found
}

#[test]
fn tick_runs_the_task() {
    let mut ex: Executor<u32> = Executor::default();
    ex.spawn(5);
    let mut ticker = Ticker::new();
    match ex.tick(&mut ticker, &9) {
        Polled::Ready(tick) => {
            assert_eq!(tick.task, 5);
            assert_eq!(tick.wake, None);
        }
        Polled::Pending => panic!("there is a task"),
    }
}

#[test]
fn tick_waits_until_a_task_is_scheduled() {
    let mut ex: LocalExecutor<u32> = LocalExecutor::new();
    let mut ticker = Ticker::new();
    assert!(matches!(ex.tick(&mut ticker, &9), Polled::Pending));
    assert_eq!(ex.inner().state().sleeping(), 1);

    // The task wakes the ticker, which then finds it.
    assert_eq!(ex.spawn(5).wake, Some(9));
    match ex.tick(&mut ticker, &9) {
        Polled::Ready(tick) => assert_eq!(tick.task, 5),
        Polled::Pending => panic!("there is a task"),
    }
    assert_eq!(ex.inner().state().sleeping(), 0);
}

#[test]
fn spawn_many_spawns_all() {
    let mut ex: Executor<u32> = Executor::new();
    let tasks = vec![1, 2, 3];

    // Other threads get their turn after the first two.
    let first = ex.spawn_many(&tasks, 0);
    assert_eq!(first.keys, vec![0, 1]);
    let second = ex.spawn_many(&tasks, 2);
    assert_eq!(second.keys, vec![2]);

    let mut run = Run::new(ex.state());
    let mut served = Vec::new();
    while let RunStep::Run(tick) = ex.run(&mut run, &0) {
        served.push(tick.task);
    }
    assert_eq!(served, vec![1, 2, 3]);
}

#[test]
fn local_spawn_many_spawns_all() {
    let mut ex: LocalExecutor<u32> = LocalExecutor::new();
    assert_eq!(ex.spawn_many(&vec![1, 2, 3]).keys, vec![0, 1, 2]);

    let mut run = Run::new(ex.inner().state());
    let mut served = Vec::new();
    while let RunStep::Run(tick) = ex.run(&mut run, &0) {
        served.push(tick.task);
    }
    assert_eq!(served, vec![1, 2, 3]);
}

#[test]
fn spawn_many_of_nothing_wakes_nobody() {
    let mut ex: LocalExecutor<u32> = LocalExecutor::new();
    let mut ticker = Ticker::new();
    assert!(matches!(ex.tick(&mut ticker, &1), Polled::Pending));
    let spawned = ex.spawn_many(&Vec::new());
    assert!(spawned.keys.is_empty());
    assert_eq!(spawned.wake, None);
    assert_eq!(ex.spawn_many(&vec![4, 5]).wake, Some(1));
}

#[test]
fn spawn_many_of_one_is_spawn() {
    let mut many: LocalExecutor<u32> = LocalExecutor::new();
    let mut one: LocalExecutor<u32> = LocalExecutor::new();
    let mut ticker = Ticker::new();
    let mut other = Ticker::new();
    assert!(matches!(many.tick(&mut ticker, &3), Polled::Pending));
    assert!(matches!(one.tick(&mut other, &3), Polled::Pending));
    let spawned_many = many.spawn_many(&vec![8]);
    let spawned = one.spawn(8);
    assert_eq!(spawned_many.keys, vec![spawned.key]);
    assert_eq!(spawned_many.wake, Some(3));
    assert_eq!(spawned.wake, Some(3));
    assert_eq!(many.try_tick().map(|tick| tick.task), Some(8));
    assert_eq!(one.try_tick().map(|tick| tick.task), Some(8));
}

#[test]
fn spawn_many_in_batches() {
    let mut ex: Executor<u32> = Executor::new();
    let tasks: Vec<u64> = (0..1100).collect();
    let mut from = 0;
    let mut batches = Vec::new();
    while from < tasks.len() {
        let spawned = ex.spawn_many(&tasks, from);
        for (i, key) in spawned.keys.iter().enumerate() {
            assert_eq!(*key, from + i);
        }
        batches.push(spawned.keys.len());
        from += spawned.keys.len();
    }
    assert_eq!(batches, vec![2, 500, 500, 98]);
    assert_eq!(ex.state().global_tasks(), 1100);
    assert_eq!(ex.state().active_tasks(), 1100);
}

#[test]
fn spawning_in_batches_is_spawning_at_once() {
    let tasks: Vec<u64> = (0..700).map(|i| i * 3).collect();
    let mut batched: Executor<u32> = Executor::new();
    let mut once: LocalExecutor<u32> = LocalExecutor::new();
    let mut keys = Vec::new();
    let mut from = 0;
    while from < tasks.len() {
        let mut spawned = batched.spawn_many(&tasks, from);
        from += spawned.keys.len();
        keys.append(&mut spawned.keys);
    }
    assert_eq!(once.spawn_many(&tasks).keys, keys);
    for task in &tasks {
        assert_eq!(batched.try_tick().map(|tick| tick.task), Some(*task));
        assert_eq!(once.try_tick().map(|tick| tick.task), Some(*task));
    }
    assert!(batched.try_tick().is_none());
    assert!(once.try_tick().is_none());
}

#[test]
fn tasks_run_in_the_order_they_were_scheduled() {
    let mut ex: Executor<u32> = Executor::new();
    for task in [4, 8, 15, 16, 23, 42] {
        assert_eq!(ex.schedule(task), None);
    }
    let mut run = Vec::new();
    while let Some(tick) = ex.try_tick() {
        run.push(tick.task);
    }
    assert_eq!(run, vec![4, 8, 15, 16, 23, 42]);
}

#[test]
fn run_yields_after_a_batch() {
    let mut ex: Executor<u32> = Executor::new();
    let tasks: Vec<u64> = (0..450).collect();
    for task in &tasks {
        ex.spawn(*task);
    }
    let mut run = Run::new(ex.state());
    let mut turns = Vec::new();
    let mut served = Vec::new();
    let mut turn = 0;
    loop {
        match ex.run(&mut run, &0) {
            RunStep::Run(tick) => {
                turn += 1;
                served.push(tick.task);
            }
            RunStep::Yield => {
                turns.push(turn);
                turn = 0;
            }
            RunStep::Pending => break,
        }
    }
    assert_eq!(turns, vec![RUN_BATCH, 100, 100, 100]);
    assert_eq!(turn, 50);
    served.sort();
    assert_eq!(served, tasks);
    assert_eq!(run.drop(ex.state()), Vec::<u32>::new());
}

#[test]
fn a_turn_is_a_hundred_tasks() {
    let mut ex: Executor<u32> = Executor::new();
    for task in 0..1000 {
        ex.spawn(task);
    }
    let mut run = Run::new(ex.state());
    for _ in 0..100 {
        assert!(matches!(ex.run(&mut run, &0), RunStep::Run(_)));
    }
    assert!(matches!(ex.run(&mut run, &0), RunStep::Yield));
    assert!(matches!(ex.run(&mut run, &0), RunStep::Run(_)));
}

#[test]
fn only_spawning_and_finishing_changes_which_tasks_are_active() {
    let mut ex: Executor<u32> = Executor::new();
    let key = ex.spawn(1).key;
    ex.schedule(9);
    assert!(ex.try_tick().is_some());
    let mut ticker = Ticker::new();
    assert!(matches!(ex.tick(&mut ticker, &0), Polled::Ready(_)));
    assert!(matches!(ex.tick(&mut ticker, &0), Polled::Pending));
    assert_eq!(ticker.drop(ex.state()), None);
    let mut run = Run::new(ex.state());
    assert!(matches!(ex.run(&mut run, &0), RunStep::Pending));
    assert!(run.drop(ex.state()).is_empty());
    assert_eq!(ex.state().active_tasks(), 1);
    assert!(!ex.is_empty());
    assert_eq!(ex.finish(key), Some(1));
    assert!(ex.is_empty());
}

#[test]
fn finishing_twice_does_nothing() {
    let mut ex: Executor<u32> = Executor::new();
    let a = ex.spawn(1).key;
    let b = ex.spawn(2).key;
    assert_ne!(a, b);
    assert_eq!(ex.finish(a), Some(1));
    assert_eq!(ex.finish(a), None);
    assert_eq!(ex.finish(100), None);
    assert!(!ex.is_empty());

    // The key is used again.
    assert_eq!(ex.spawn(3).key, a);
    assert_eq!(ex.finish(b), Some(2));
    assert_eq!(ex.finish(a), Some(3));
    assert!(ex.is_empty());
}

#[test]
fn keys_are_reused_last_vacated_first() {
    let mut ex: Executor<u32> = Executor::new();
    for task in 10..15 {
        assert_eq!(ex.spawn(task).key as u64, task - 10);
    }
    ex.finish(1);
    ex.finish(3);
    ex.finish(0);
    assert_eq!(ex.spawn(20).key, 0);
    assert_eq!(ex.spawn(21).key, 3);
    assert_eq!(ex.spawn(22).key, 1);
    assert_eq!(ex.spawn(23).key, 5);
    assert_eq!(ex.drop(), vec![20, 22, 12, 21, 14, 23]);
}

#[test]
fn drop_hands_out_the_active_tasks_and_what_is_queued() {
    let mut ex: Executor<u32> = Executor::new();
    ex.spawn(1);
    let gone = ex.spawn(2).key;
    ex.spawn(3);
    ex.try_tick();
    ex.finish(gone);
    assert_eq!(ex.drop(), vec![1, 3]);
    assert!(ex.is_empty());
    // They are scheduled once more when they are woken.
    ex.schedule(1);
    ex.schedule(3);
    let mut dropped = Vec::new();
    while let Some(task) = ex.drop_queued() {
        dropped.push(task);
    }
    assert_eq!(dropped, vec![2, 3, 1, 3]);
    assert_eq!(ex.drop_queued(), None);
}

#[test]
fn drop_of_an_unused_executor_does_nothing() {
    let mut ex: Executor<u32> = Executor::new();
    assert_eq!(ex.drop(), Vec::<u64>::new());
    assert_eq!(ex.drop_queued(), None);
    assert!(ex.parts().is_none());
}

#[test]
fn run_until_a_future_completes() {
    // Runnables by task number, as the one who holds an executor keeps them.
    let runnables: Arc<Mutex<HashMap<u64, async_task::Runnable>>> = Arc::default();
    let ex: Arc<Mutex<Executor<u32>>> = Arc::new(Mutex::new(Executor::new()));

    let key = ex.lock().unwrap().spawn(3).key;
    let (runnable, task) = {
        let runnables = runnables.clone();
        let ex = ex.clone();
        async_task::spawn(async { 1 + 2 }, move |runnable| {
            runnables.lock().unwrap().insert(3, runnable);
            ex.lock().unwrap().schedule(3);
        })
    };
    runnables.lock().unwrap().insert(3, runnable);

    let mut run = Run::new(ex.lock().unwrap().state());
    loop {
        let step = ex.lock().unwrap().run(&mut run, &0);
        match step {
            RunStep::Run(tick) => {
                let runnable = runnables.lock().unwrap().remove(&tick.task).unwrap();
                runnable.run();
            }
            RunStep::Yield => {}
            RunStep::Pending => break,
        }
    }
    let res = futures_lite::future::block_on(async { task.await * 2 });
    assert_eq!(res, 6);
    assert_eq!(ex.lock().unwrap().finish(key), Some(3));
    assert!(ex.lock().unwrap().is_empty());
}
