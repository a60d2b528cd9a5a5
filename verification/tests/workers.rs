use std::sync::mpsc;

use erlcuda::backend::{Backend, CpuBackend};
use erlcuda::job::{Command, Job};
use erlcuda::nif::{
    launch_dot_product, launch_matmul, launch_reduce, launch_vector_add, outcome_message,
    validate_device, Atom, JobIds, Payload,
};
use erlcuda::queue::JobQueue;
use erlcuda::scalar::Scalar;
use erlcuda::simulate::GridBackend;
use erlcuda::worker::{
    batch_fits, drain_batch, pair_up, run_jobs, serve, take_polled, StackSizeOverride,
    StackSizeOverrideGuard, WorkerTable, MAX_BATCH_SIZE,
};

#[derive(Clone, Copy, Debug, PartialEq)]
struct Real(f32);

impl Scalar for Real {
    fn zero() -> Real {
        Real(0.0)
    }

    fn plus(self, other: Real) -> Real {
        Real(self.0 + other.0)
    }

    fn times(self, other: Real) -> Real {
        Real(self.0 * other.0)
    }
}

fn vector_add_job(id: u64, a: Vec<f32>, b: Vec<f32>) -> Job<Real, &'static str> {
    Job {
        id,
        pid: "caller",
        command: Command::VectorAdd {
            a: a.into_iter().map(Real).collect(),
            b: b.into_iter().map(Real).collect(),
        },
    }
}

/// Records every addition it is asked for and computes nothing.
struct RecordingBackend {
    calls: Vec<(Vec<Real>, Vec<Real>)>,
}

impl Backend<Real> for RecordingBackend {
    fn run(&mut self, command: &Command<Real>) -> Result<Vec<Real>, String> {
        match command {
            Command::VectorAdd { a, b } => {
                self.calls.push((a.clone(), b.clone()));
                Ok(vec![])
            }
            _ => unreachable!("only additions are sent"),
        }
    }

    fn run_batch(&mut self, commands: &[&Command<Real>]) -> Vec<Result<Vec<Real>, String>> {
        self.run_one_by_one(commands)
    }
}

/// Records the size of every batch, answers each command with its place in the
/// batch, and cannot run a command on its own.
struct BatchingBackend {
    batches: Vec<usize>,
}

impl Backend<Real> for BatchingBackend {
    fn run(&mut self, _command: &Command<Real>) -> Result<Vec<Real>, String> {
        unreachable!("everything comes in batches")
    }

    fn run_batch(&mut self, commands: &[&Command<Real>]) -> Vec<Result<Vec<Real>, String>> {
        self.batches.push(commands.len());
        (0..commands.len()).map(|i| Ok(vec![Real(i as f32)])).collect()
    }
}

#[test]
fn drain_batch_drains_everything_currently_queued_when_under_the_cap() {
    let (tx, rx) = mpsc::channel();
    for i in 2..=4u64 {
        tx.send(vector_add_job(i, vec![i as f32], vec![0.0])).unwrap();
    }
    let first = vector_add_job(1, vec![1.0], vec![0.0]);

    let batch = drain_batch(&mut JobQueue::new(rx), first, 256);

    assert_eq!(
        batch.iter().map(|j| j.id).collect::<Vec<_>>(),
        vec![1, 2, 3, 4]
    );
}

#[test]
fn drain_batch_stops_at_the_cap_leaving_the_remainder_in_the_channel() {
    let (tx, rx) = mpsc::channel();
    for i in 1..=5u64 {
        tx.send(vector_add_job(i, vec![i as f32], vec![0.0])).unwrap();
    }
    let mut queue = JobQueue::new(rx);
    let first = queue.rx.recv().unwrap();

    let batch = drain_batch(&mut queue, first, 3);

    assert_eq!(
        batch.iter().map(|j| j.id).collect::<Vec<_>>(),
        vec![1, 2, 3]
    );
    let remaining: Vec<u64> = std::iter::from_fn(|| queue.rx.try_recv().ok())
        .map(|j| j.id)
        .collect();
    assert_eq!(remaining, vec![4, 5]);
}

#[test]
fn a_lone_job_is_a_batch_of_its_own() {
    let (tx, rx) = mpsc::channel::<u64>();
    let mut queue = JobQueue::new(rx);
    assert_eq!(drain_batch(&mut queue, 7, MAX_BATCH_SIZE), vec![7]);
    tx.send(8).unwrap();
    assert_eq!(drain_batch(&mut queue, 7, 0), vec![7]);
    assert_eq!(drain_batch(&mut queue, 7, 1), vec![7]);
    // Nobody took the job that is still queued, and it outlives its sender.
    drop(tx);
    assert_eq!(drain_batch(&mut queue, 7, 2), vec![7, 8]);
    assert_eq!(drain_batch(&mut queue, 9, 2), vec![9]);
}

#[test]
fn polled_jobs_are_added_up_to_the_cap() {
    let mut batch = vec![1];
    assert!(take_polled(&mut batch, Some(2), 3));
    assert!(!take_polled(&mut batch, None, 3));
    assert_eq!(batch, vec![1, 2]);
    assert!(!take_polled(&mut batch, Some(3), 3));
    assert_eq!(batch, vec![1, 2, 3]);
}

#[test]
fn a_flood_is_cut_into_full_batches() {
    let (tx, rx) = mpsc::channel::<u64>();
    for i in 1..600 {
        tx.send(i).unwrap();
    }
    let mut queue = JobQueue::new(rx);
    let batch = drain_batch(&mut queue, 0, MAX_BATCH_SIZE);
    assert_eq!(batch, (0..256).collect::<Vec<u64>>());
    let first = queue.rx.recv().unwrap();
    let batch = drain_batch(&mut queue, first, MAX_BATCH_SIZE);
    assert_eq!(batch, (256..512).collect::<Vec<u64>>());
}

#[test]
fn every_job_reaches_the_backend_once_and_in_order() {
    let mut backend = RecordingBackend { calls: vec![] };
    let batch: Vec<_> = (1..=5u64)
        .map(|i| vector_add_job(i, vec![i as f32], vec![(i * 10) as f32]))
        .collect();
    let deliveries = run_jobs(&mut backend, batch);

    assert_eq!(backend.calls.len(), 5);
    for (i, (a, b)) in backend.calls.iter().enumerate() {
        let n = (i + 1) as f32;
        assert_eq!(a, &vec![Real(n)]);
        assert_eq!(b, &vec![Real(n * 10.0)]);
    }
    let ids: Vec<u64> = deliveries.iter().map(|d| d.id).collect();
    assert_eq!(ids, vec![1, 2, 3, 4, 5]);
    assert!(deliveries.iter().all(|d| d.pid == "caller"));
}

#[test]
fn jobs_get_their_own_results_on_either_backend() {
    let jobs = || {
        vec![
            Job {
                id: 11,
                pid: 1u8,
                command: Command::VectorAdd {
                    a: vec![1, 2],
                    b: vec![3, 4],
                },
            },
            Job {
                id: 12,
                pid: 2u8,
                command: Command::VectorAdd {
                    a: vec![1],
                    b: vec![],
                },
            },
            Job {
                id: 13,
                pid: 3u8,
                command: Command::VectorAdd {
                    a: vec![5],
                    b: vec![6],
                },
            },
        ]
    };
    let expected = vec![
        (1, 11, Ok(vec![4, 6])),
        (2, 12, Err("length mismatch: 1 vs 0".to_string())),
        (3, 13, Ok(vec![11])),
    ];
    assert!(batch_fits(&jobs()));
    let on_cpu: Vec<_> = run_jobs(&mut CpuBackend, jobs())
        .into_iter()
        .map(|d| (d.pid, d.id, d.result))
        .collect();
    assert_eq!(on_cpu, expected);
    let on_grid: Vec<_> = run_jobs(&mut GridBackend::new(64), jobs())
        .into_iter()
        .map(|d| (d.pid, d.id, d.result))
        .collect();
    assert_eq!(on_grid, expected);
}

#[test]
fn a_turn_serves_what_is_queued() {
    let (tx, rx) = mpsc::channel();
    for i in 1..=300u64 {
        tx.send(vector_add_job(i, vec![i as f32], vec![1.0])).unwrap();
    }
    let mut queue = JobQueue::new(rx);
    let mut backend = GridBackend::new(32);
    let mut served = Vec::new();
    let mut turns = Vec::new();
    while let Ok(first) = queue.rx.try_recv() {
        let deliveries = serve(&mut backend, &mut queue, first).unwrap();
        turns.push(deliveries.len());
        served.extend(deliveries.into_iter().map(|d| (d.id, d.result)));
    }
    assert_eq!(turns, vec![256, 44]);
    for (i, (id, result)) in served.iter().enumerate() {
        assert_eq!(*id, i as u64 + 1);
        assert_eq!(result, &Ok(vec![Real(i as f32 + 2.0)]));
    }
}

#[test]
fn a_turn_is_one_batch_run() {
    let (tx, rx) = mpsc::channel();
    for i in 1..=300u64 {
        tx.send(vector_add_job(i, vec![i as f32], vec![1.0])).unwrap();
    }
    drop(tx);
    let mut queue = JobQueue::new(rx);
    let mut backend = BatchingBackend { batches: vec![] };
    let mut answers = Vec::new();
    while let Ok(first) = queue.rx.recv() {
        let deliveries = serve(&mut backend, &mut queue, first).unwrap();
        answers.extend(deliveries.into_iter().map(|d| (d.id, d.result)));
    }
    assert_eq!(backend.batches, vec![256, 44]);
    assert_eq!(answers.len(), 300);
    for (i, (id, result)) in answers.iter().enumerate() {
        assert_eq!(*id, i as u64 + 1);
        assert_eq!(result, &Ok(vec![Real((i % 256) as f32)]));
    }

    let mut backend = BatchingBackend { batches: vec![] };
    let jobs = (1..=3).map(|i| vector_add_job(i, vec![], vec![])).collect();
    assert_eq!(run_jobs(&mut backend, jobs).len(), 3);
    assert_eq!(backend.batches, vec![3]);
}

#[test]
fn queued_jobs_are_run_and_answered_once_and_in_order() {
    let (tx, rx) = mpsc::channel();
    for i in 1..=5u64 {
        tx.send(vector_add_job(i, vec![i as f32], vec![(i * 10) as f32])).unwrap();
    }
    drop(tx);
    let mut queue = JobQueue::new(rx);
    let mut backend = RecordingBackend { calls: vec![] };
    let mut ids = Vec::new();
    while let Ok(first) = queue.rx.recv() {
        let deliveries = serve(&mut backend, &mut queue, first).unwrap();
        ids.extend(deliveries.iter().map(|d| d.id));
    }
    let expected: Vec<_> = (1..=5)
        .map(|i| (vec![Real(i as f32)], vec![Real((i * 10) as f32)]))
        .collect();
    assert_eq!(backend.calls, expected);
    assert_eq!(ids, vec![1, 2, 3, 4, 5]);
}

#[test]
fn a_turn_refuses_sizes_out_of_range() {
    let (_tx, rx) = mpsc::channel();
    let first = Job {
        id: 1,
        pid: (),
        command: Command::<i32>::MatMul {
            a: vec![],
            b: vec![],
            m: usize::MAX,
            n: 2,
            k: 0,
        },
    };
    assert!(serve(&mut CpuBackend, &mut JobQueue::new(rx), first).is_none());
}

#[test]
fn a_batch_with_sizes_out_of_range_does_not_fit() {
    let batch = vec![Job {
        id: 1,
        pid: (),
        command: Command::<i32>::MatMul {
            a: vec![],
            b: vec![],
            m: usize::MAX,
            n: usize::MAX,
            k: 0,
        },
    }];
    assert!(!batch_fits(&batch));
}

#[test]
fn pairing_stops_at_the_shorter_side() {
    let batch = vec![
        vector_add_job(1, vec![], vec![]),
        vector_add_job(2, vec![], vec![]),
    ];
    let deliveries = pair_up(batch, vec![Ok(vec![Real(5.0)])]);
    assert_eq!(deliveries.len(), 1);
    assert_eq!(deliveries[0].id, 1);
    assert_eq!(deliveries[0].result, Ok(vec![Real(5.0)]));
    let deliveries = pair_up(
        vec![vector_add_job(3, vec![], vec![])],
        vec![Err("first".to_string()), Err("second".to_string())],
    );
    assert_eq!(deliveries.len(), 1);
    assert_eq!(deliveries[0].result, Err("first".to_string()));
}

#[test]
fn the_first_worker_of_a_device_stays() {
    let mut table = WorkerTable::new();
    assert_eq!(table.lookup(0), None);
    assert_eq!(*table.adopt(0, "first"), "first");
    assert_eq!(*table.adopt(1, "other"), "other");
    assert_eq!(*table.adopt(0, "late"), "first");
    assert_eq!(table.lookup(0), Some(&"first"));
    assert_eq!(table.lookup(1), Some(&"other"));
    assert_eq!(table.lookup(2), None);
}

#[test]
fn stack_size_override_is_set_and_lifted() {
    let mut cell = StackSizeOverride { size: None };
    let guard = StackSizeOverrideGuard::set(&mut cell, usize::MAX / 2);
    assert_eq!(cell.size, Some(usize::MAX / 2));
    guard.reset(&mut cell);
    assert_eq!(cell.size, None);
}

#[test]
fn devices_are_validated_by_count() {
    assert!(validate_device(0, 1).is_ok());
    assert!(validate_device(3, 4).is_ok());
    assert!(matches!(validate_device(4, 4), Err(Atom::InvalidDevice)));
    assert!(matches!(validate_device(0, 0), Err(Atom::InvalidDevice)));
}

#[test]
fn requests_become_numbered_jobs() {
    let mut ids = JobIds::new();
    let job = match launch_vector_add(&mut ids, vec![1], vec![2], 0, 1, "p") {
        Ok(job) => job,
        Err(_) => panic!("there is a device"),
    };
    assert_eq!((job.id, job.pid), (1, "p"));
    assert!(matches!(job.command, Command::VectorAdd { a, b } if a == vec![1] && b == vec![2]));

    // A refused request uses up no number.
    assert!(matches!(
        launch_reduce(&mut ids, vec![1], 1, 1, "p"),
        Err(Atom::InvalidDevice)
    ));

    match launch_reduce(&mut ids, vec![4], 0, 1, "q") {
        Ok(job) => {
            assert_eq!((job.id, job.pid), (2, "q"));
            assert!(matches!(job.command, Command::Reduce { a } if a == vec![4]));
        }
        Err(_) => panic!("there is a device"),
    }
    match launch_dot_product(&mut ids, vec![5], vec![6], 1, 2, "r") {
        Ok(job) => {
            assert_eq!(job.id, 3);
            assert!(matches!(job.command, Command::DotProduct { a, b } if a == vec![5] && b == vec![6]));
        }
        Err(_) => panic!("there is a device"),
    }
    match launch_matmul(&mut ids, vec![7, 8], vec![9, 1], 1, 1, 2, 1, 2, "s") {
        Ok(job) => {
            assert_eq!(job.id, 4);
            assert!(matches!(job.command, Command::MatMul { m: 1, n: 1, k: 2, .. }));
        }
        Err(_) => panic!("there is a device"),
    }
    assert_eq!(ids.issue(), 5);
    assert_eq!(ids.issue(), 6);
}

#[test]
fn outcomes_are_worded_for_the_caller() {
    let message = outcome_message(9, Ok(vec![1, 2]));
    assert_eq!(message.tag.name(), "erlcuda");
    assert_eq!(message.id, 9);
    assert_eq!(message.status.name(), "ok");
    assert!(matches!(message.payload, Payload::Values(v) if v == vec![1, 2]));

    let message = outcome_message::<i32>(10, Err("length mismatch: 1 vs 2".to_string()));
    assert_eq!(message.tag.name(), "erlcuda");
    assert_eq!(message.id, 10);
    assert_eq!(message.status.name(), "error");
    assert!(matches!(message.payload, Payload::Reason(r) if r == "length mismatch: 1 vs 2"));
    assert_eq!(Atom::InvalidDevice.name(), "invalid_device");
}
