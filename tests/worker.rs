use grpcworker::dag::{DAGContext, Executor, ReqContext, Row};
use grpcworker::errors::Error;
use grpcworker::readpool::{self, ReadPool};
use grpcworker::storage::SnapshotStore;
use grpcworker::worker::{
    finish_subtask, map_pb_command_priority, CommandPri, Config, CopStreamSubTask, Dispatch,
    GrpcRequestWorker, KvGetSubTask, Priority, RunDecision, SubTask, Task, Value,
};

fn config(max_read_tasks: usize) -> Config {
    Config {
        read_critical_concurrency: 1,
        read_high_concurrency: 2,
        read_normal_concurrency: 3,
        read_low_concurrency: 4,
        max_read_tasks,
        stack_size: 1 << 20,
        end_point_batch_row_limit: 64,
        end_point_recursion_limit: 1000,
        scheduler_capacity: 16,
    }
}

/// Runs one task to its end through the scheduler, the runner and the
/// subtask steps, and returns what its callback receives.
fn run_to_end(worker: &GrpcRequestWorker, engine: &SnapshotStore, id: u64, sub: SubTask, p: Priority) -> Result<Value, Error> {
    let mut scheduler = worker.build_scheduler();
    let mut runner = worker.build_runner();
    let ctx = worker.thread_context();
    let mut d = worker.async_execute(&mut scheduler, id, sub, p);
    loop {
        let t = match d {
            Dispatch::Fired(fid, r) => {
                assert_eq!(fid, id);
                return r;
            }
            Dispatch::Queued(t) => t,
        };
        scheduler.on_dequeue();
        let mut t = match runner.run(t) {
            RunDecision::Fired(_, r) => return r,
            RunDecision::Execute(t) => t,
        };
        let sub = t.subtask.take().unwrap();
        let result = sub.async_work(&ctx, engine, 1_000);
        runner.on_task_done(t.priority);
        d = finish_subtask(&mut scheduler, t, result);
    }
}

#[test]
fn test_scheduler_run() {
    let worker = GrpcRequestWorker::new(&config(4));
    let engine = SnapshotStore::new(0);
    let r = run_to_end(
        &worker,
        &engine,
        0,
        SubTask::KvGet(KvGetSubTask { key: b"x".to_vec(), start_ts: 100 }),
        Priority::ReadCritical,
    );
    assert_eq!(r.unwrap(), Value::Storage(None));
}

#[test]
fn point_get_hit() {
    let worker = GrpcRequestWorker::new(&config(4));
    let mut engine = SnapshotStore::new(0);
    engine.put(b"k".to_vec(), 50, b"v".to_vec());
    let r = run_to_end(&worker, &engine, 1, SubTask::KvGet(KvGetSubTask { key: b"k".to_vec(), start_ts: 100 }), Priority::ReadHigh);
    assert_eq!(r, Ok(Value::Storage(Some(b"v".to_vec()))));
    let early = run_to_end(&worker, &engine, 2, SubTask::KvGet(KvGetSubTask { key: b"k".to_vec(), start_ts: 40 }), Priority::ReadLow);
    assert_eq!(early, Ok(Value::Storage(None)));
}

#[test]
fn pool_overflow_is_rejected() {
    let worker = GrpcRequestWorker::new(&config(1));
    let mut runner = worker.build_runner();
    let get = |id: u64| Task {
        id,
        subtask: Some(SubTask::KvGet(KvGetSubTask { key: b"k".to_vec(), start_ts: 1 })),
        priority: Priority::ReadNormal,
    };
    assert!(matches!(runner.run(get(1)), RunDecision::Execute(_)));
    match runner.run(get(2)) {
        RunDecision::Fired(id, r) => {
            assert_eq!(id, 2);
            assert_eq!(r, Err(Error::PoolBusy(2)));
        }
        RunDecision::Execute(_) => panic!("second task admitted"),
    }
    assert!(matches!(runner.run(Task { priority: Priority::ReadHigh, ..get(3) }), RunDecision::Execute(_)));
    runner.on_task_done(Priority::ReadNormal);
    assert!(matches!(runner.run(get(4)), RunDecision::Execute(_)));
    assert_eq!(runner.pool_read_normal.task_count, 1);
    assert_eq!(runner.pool_read_normal.thread_count, 3);
}

#[test]
fn scheduler_full_and_stopped() {
    let mut cfg = config(4);
    cfg.scheduler_capacity = 1;
    let worker = GrpcRequestWorker::new(&cfg);
    let mut scheduler = worker.build_scheduler();
    let sub = || SubTask::KvGet(KvGetSubTask { key: b"k".to_vec(), start_ts: 1 });
    assert!(matches!(worker.async_execute(&mut scheduler, 1, sub(), Priority::ReadLow), Dispatch::Queued(_)));
    match worker.async_execute(&mut scheduler, 2, sub(), Priority::ReadLow) {
        Dispatch::Fired(id, r) => assert_eq!((id, r), (2, Err(Error::SchedulerBusy(2)))),
        Dispatch::Queued(_) => panic!("queue over capacity"),
    }
    scheduler.on_dequeue();
    scheduler.stop();
    match worker.async_execute(&mut scheduler, 3, sub(), Priority::ReadLow) {
        Dispatch::Fired(id, r) => assert_eq!((id, r), (3, Err(Error::SchedulerStopped(3)))),
        Dispatch::Queued(_) => panic!("stopped scheduler took a task"),
    }
}

#[test]
fn streamed_request_continues_until_last_frame() {
    let worker = GrpcRequestWorker::new(&config(4));
    let engine = SnapshotStore::new(0);
    let rows: Vec<Row> = (1..=5u8)
        .map(|i| Row { handle: i as i64, key: vec![b'k', b'0' + i], value: vec![i], cols: vec![] })
        .collect();
    let dag = DAGContext::new(vec![], true, Executor::new(rows, None), vec![], 2, 1, ReqContext { deadline_ms: u64::MAX }).unwrap();
    let r = run_to_end(&worker, &engine, 9, SubTask::CopStream(CopStreamSubTask { dag, frames: vec![] }), Priority::ReadNormal);
    match r {
        Ok(Value::CopStream(frames)) => {
            assert_eq!(frames.len(), 4);
            assert_eq!(frames[0].chunks[0].rows_data, vec![1, 2]);
            assert_eq!(frames[2].chunks[0].rows_data, vec![5]);
            assert!(frames[3].chunks.is_empty());
        }
        other => panic!("unexpected {:?}", other),
    }
}

#[test]
fn wire_priorities_map_to_pools() {
    assert_eq!(map_pb_command_priority(CommandPri::High), Priority::ReadHigh);
    assert_eq!(map_pb_command_priority(CommandPri::Normal), Priority::ReadNormal);
    assert_eq!(map_pb_command_priority(CommandPri::Low), Priority::ReadLow);
}

#[test]
fn read_pool_has_one_pool_per_priority() {
    let rp = ReadPool::new(&readpool::Config { high_concurrency: 2, normal_concurrency: 3, low_concurrency: 1, stack_size: 4096 });
    assert_eq!(rp.get_pool_by_priority(readpool::Priority::High).concurrency, 2);
    assert_eq!(rp.get_pool_by_priority(readpool::Priority::Normal).name, "readpool-normal");
    assert_eq!(rp.get_pool_by_priority(readpool::Priority::Low).stack_size, 4096);
    assert_eq!(rp.pool_low.tick_interval_sec, 1);
}

#[test]
fn outdated_request_fails_with_outdated() {
    let worker = GrpcRequestWorker::new(&config(4));
    let engine = SnapshotStore::new(0);
    let rows = vec![Row { handle: 1, key: b"k1".to_vec(), value: vec![1], cols: vec![] }];
    let dag = DAGContext::new(vec![], true, Executor::new(rows, None), vec![], 2, 1, ReqContext { deadline_ms: 10 }).unwrap();
    let r = run_to_end(&worker, &engine, 4, SubTask::CopStream(CopStreamSubTask { dag, frames: vec![] }), Priority::ReadHigh);
    assert_eq!(r, Err(Error::Outdated));
}
