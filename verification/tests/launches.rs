use erlcuda::coalesce::{can_coalesce, VectorAddBatch};
use erlcuda::cuda::{conclude, plan, CudaBatch, Step};
use erlcuda::device::{Launch, Stage};
use erlcuda::grid::{
    matmul_grid, reduce_grid, run_dot_product, run_matmul, run_reduce_sum, run_vector_add,
    vector_add_grid,
};
use erlcuda::job::Command;
use erlcuda::kernels::{dot_product, matmul, reduce_sum, vector_add};
use erlcuda::scalar::{products_of, sum_of, sums_of, zeroed, Scalar};
use erlcuda::text::decimal_text;

fn add(a: &[i32], b: &[i32]) -> Command<i32> {
    Command::VectorAdd {
        a: a.to_vec(),
        b: b.to_vec(),
    }
}

#[test]
fn integers_wrap() {
    assert_eq!(i32::MAX.plus(1), i32::MIN);
    assert_eq!((1 << 30).times(4), 0);
    assert_eq!(<i32 as Scalar>::zero(), 0);
    // Regrouping a wrapping sum changes nothing.
    let (x, y, z) = (i32::MAX, 5, i32::MIN);
    assert_eq!(x.plus(y).plus(z), x.plus(y.plus(z)));
    assert_eq!(x.plus(y), y.plus(x));
}

#[test]
fn slices_are_summed_and_combined() {
    assert_eq!(sum_of(&[1, 2, 3, 4]), 10);
    assert_eq!(sum_of::<i32>(&[]), 0);
    assert_eq!(sums_of(&[1, 2], &[10, 20]), vec![11, 22]);
    assert_eq!(products_of(&[3, 4], &[5, 6]), vec![15, 24]);
    assert_eq!(zeroed::<i32>(3), vec![0, 0, 0]);
}

#[test]
fn numbers_are_written_in_decimal() {
    assert_eq!(decimal_text(0), "0");
    assert_eq!(decimal_text(9), "9");
    assert_eq!(decimal_text(10), "10");
    assert_eq!(decimal_text(1234567890), "1234567890");
    assert_eq!(decimal_text(u128::MAX), u128::MAX.to_string());
}

#[test]
fn grids_are_rounded_up_and_cut_to_32_bits() {
    assert_eq!(vector_add_grid(1, 256), 1);
    assert_eq!(vector_add_grid(256, 256), 1);
    assert_eq!(vector_add_grid(257, 256), 2);
    assert_eq!(vector_add_grid(100_000, 1024), 98);
    assert_eq!(reduce_grid(0), 0);
    assert_eq!(reduce_grid(100_000), 391);
    assert_eq!(reduce_grid(u32::MAX as usize), 1 << 24);
    assert_eq!(matmul_grid(16), 1);
    assert_eq!(matmul_grid(33), 3);
    assert_eq!(reduce_grid((1usize << 32) + 300), 2);
    assert_eq!(vector_add_grid(1usize << 32, 7), 0);
}

#[test]
fn a_thread_adds_one_pair_and_stays_inside() {
    let mut c = vec![0, 0, 0];
    vector_add(&[1, 2, 3], &[10, 20, 30], &mut c, 1);
    assert_eq!(c, vec![0, 22, 0]);
    vector_add(&[1, 2, 3], &[10, 20, 30], &mut c, 3);
    assert_eq!(c, vec![0, 22, 0]);
}

#[test]
fn threads_may_run_in_any_order() {
    let (a, b) = (vec![1, 2, 3, 4], vec![10, 20, 30, 40]);
    let mut c = vec![-1; 4];
    for idx in [7, 3, 0, 2, 4, 1, 0] {
        vector_add(&a, &b, &mut c, idx);
    }
    assert_eq!(c, vec![11, 22, 33, 44]);
    assert_eq!(c, run_vector_add(&a, &b, 2, 3));

    // Longer buffers: the rest of the output stays as it was.
    let longer = vec![10, 20, 30, 40, 50];
    let mut c = vec![-1; 6];
    for idx in [2, 5, 0, 3, 4, 1] {
        vector_add(&a, &longer, &mut c, idx);
    }
    assert_eq!(c, vec![11, 22, 33, 44, -1, -1]);
}

#[test]
fn a_block_sums_its_own_elements() {
    let a: Vec<i32> = (0..300).collect();
    let mut partials = vec![-1, -1];
    reduce_sum(&a, &mut partials, 1);
    assert_eq!(partials, vec![-1, (256..300).sum::<i32>()]);
    reduce_sum(&a, &mut partials, 0);
    assert_eq!(partials, vec![(0..256).sum::<i32>(), (256..300).sum::<i32>()]);

    let ones = vec![2; 300];
    let mut products = vec![0, 0];
    dot_product(&a, &ones, &mut products, 1);
    assert_eq!(products, vec![0, 2 * (256..300).sum::<i32>()]);
    // The first block looks at the first elements only.
    dot_product(&a, &ones[..256], &mut products, 0);
    assert_eq!(products[0], 2 * (0..256).sum::<i32>());
}

#[test]
fn blocks_may_run_in_any_order() {
    let (m, n, k) = (20, 17, 3);
    let a: Vec<i32> = (0..60).collect();
    let b: Vec<i32> = (0..51).map(|i| 7 - i).collect();
    let mut forward = vec![0; m * n];
    let mut backward = vec![0; m * n];
    for (x, y) in [(0, 0), (1, 0), (0, 1), (1, 1)] {
        matmul(&a, &b, &mut forward, m, n, k, x, y);
    }
    for (x, y) in [(1, 1), (0, 1), (1, 0), (0, 0)] {
        matmul(&a, &b, &mut backward, m, n, k, x, y);
    }
    assert_eq!(forward, backward);
    assert_eq!(run_matmul(&a, &b, m, n, k, 2, 2), forward);
    // Longer buffers: what lies behind the matrices is neither read nor written.
    let longer = |s: &[i32]| [s, &[99; 40]].concat();
    let mut c = vec![-1; m * n + 5];
    for (x, y) in [(0, 1), (1, 0), (1, 1), (0, 0)] {
        matmul(&longer(&a), &longer(&b), &mut c, m, n, k, x, y);
    }
    assert_eq!(c[..m * n], forward);
    assert_eq!(c[m * n..], [-1; 5]);
    // Row 1, column 2: the first entry that a mix-up of rows and columns would
    // get wrong.
    assert_eq!(
        forward[n + 2],
        3 * b[2] + 4 * b[17 + 2] + 5 * b[34 + 2]
    );
}

#[test]
fn a_grid_that_is_too_small_leaves_zeros() {
    assert_eq!(
        run_vector_add(&[1, 2, 3, 4, 5], &[1, 1, 1, 1, 1], 2, 2),
        vec![2, 3, 4, 5, 0]
    );
    assert_eq!(
        run_matmul(&[1; 17], &[1; 17], 17, 17, 1, 1, 1)[17 * 15 + 14..17 * 16 + 1],
        [1, 1, 0, 0]
    );
}

#[test]
fn partial_sums_add_up_to_the_whole() {
    let a: Vec<i32> = (0..1000).collect();
    let partials = run_reduce_sum(&a, reduce_grid(a.len()));
    assert_eq!(partials.len(), 4);
    assert_eq!(sum_of(&partials), 499_500);
    let partials = run_dot_product(&a, &a, reduce_grid(a.len()));
    assert_eq!(sum_of(&partials), 332_833_500);
}

#[test]
fn plans_settle_what_needs_no_device() {
    assert!(matches!(plan(&add(&[], &[])), Step::Settled(Ok(v)) if v.is_empty()));
    assert!(matches!(plan(&add(&[1], &[])), Step::Settled(Err(e)) if e == "length mismatch: 1 vs 0"));
    assert!(matches!(
        plan(&Command::<i32>::Reduce { a: vec![] }),
        Step::Settled(Ok(v)) if v == vec![0]
    ));
    let command = Command::MatMul {
        a: vec![1; 40 * 3],
        b: vec![1; 3 * 20],
        m: 40,
        n: 20,
        k: 3,
    };
    match plan(&command) {
        Step::Launch(launch) => {
            assert_eq!(launch.kernel_name(), "matmul");
            assert_eq!(launch.out_len(), 800);
            let geometry = launch.geometry(0);
            assert_eq!(geometry.grid, (2, 3));
            assert_eq!(geometry.block, (16, 16));
            assert!(matches!(launch.alloc_stage(), Stage::AllocC));
            assert_eq!(launch.execute(64), vec![3; 800]);
        }
        Step::Settled(_) => panic!("a matrix product needs the device"),
    }
}

#[test]
fn an_empty_matrix_takes_no_launch() {
    for (m, n, k) in [(0, 0, 0), (0, 5, 3), (4, 0, 2)] {
        let command = Command::MatMul {
            a: vec![1; m * k],
            b: vec![1; k * n],
            m,
            n,
            k,
        };
        assert!(matches!(plan(&command), Step::Settled(Ok(v)) if v.is_empty()));
    }
    // No common dimension: the matrix has entries, all of them zero.
    let zeros = Command::<i32>::MatMul {
        a: vec![],
        b: vec![],
        m: 1,
        n: 17,
        k: 0,
    };
    match plan(&zeros) {
        Step::Launch(launch) => {
            assert_eq!(launch.geometry(0).grid, (2, 1));
            assert_eq!(launch.execute(1), vec![0; 17]);
        }
        Step::Settled(_) => panic!("a matrix with entries needs the device"),
    }
}

#[test]
fn launches_know_their_kernel_and_their_threads() {
    let a = vec![1; 600];
    let launch = Launch::VectorAdd { a: &a, b: &a };
    assert_eq!(launch.kernel_name(), "vector_add");
    assert_eq!(launch.out_len(), 600);
    assert_eq!(launch.geometry(128).grid, (5, 1));
    assert_eq!(launch.geometry(128).block, (128, 1));
    assert!(matches!(launch.alloc_stage(), Stage::AllocOut));

    let launch = Launch::ReduceSum {
        a: &a,
        grid_size: 3,
    };
    assert_eq!(launch.kernel_name(), "reduce_sum");
    assert_eq!(launch.out_len(), 3);
    assert_eq!(launch.geometry(128).grid, (3, 1));
    assert_eq!(launch.geometry(128).block, (256, 1));
    assert!(matches!(launch.alloc_stage(), Stage::AllocPartialSums));
    assert_eq!(launch.execute(1), vec![256, 256, 88]);

    let launch = Launch::DotProduct {
        a: &a,
        b: &a,
        grid_size: 3,
    };
    assert_eq!(launch.kernel_name(), "dot_product");
}

#[test]
fn replies_become_results() {
    let sum = Command::<i32>::Reduce { a: vec![1; 300] };
    assert_eq!(conclude(&sum, Ok(vec![256, 44])), Ok(vec![300]));
    assert_eq!(conclude(&sum, Err("lost".to_string())), Err("lost".to_string()));
    assert_eq!(conclude(&add(&[1], &[2]), Ok(vec![3])), Ok(vec![3]));
}

#[test]
fn failures_are_worded_by_stage() {
    for (stage, text) in [
        (Stage::Init, "cust::init failed: x"),
        (Stage::GetDevice { device: 17 }, "Device::get_device(17) failed: x"),
        (Stage::NewContext, "Context::new failed: x"),
        (Stage::SetFlags, "Context::set_flags failed: x"),
        (Stage::LoadModule, "Module::from_ptx failed: x"),
        (Stage::NewStream, "Stream::new failed: x"),
        (Stage::UploadA, "upload a failed: x"),
        (Stage::UploadB, "upload b failed: x"),
        (Stage::AllocOut, "alloc out failed: x"),
        (Stage::AllocPartialSums, "alloc partial_sums failed: x"),
        (Stage::AllocC, "alloc c failed: x"),
        (Stage::GetFunction, "get_function failed: x"),
        (Stage::SuggestLaunch, "suggested_launch_configuration failed: x"),
        (Stage::KernelLaunch, "kernel launch failed: x"),
        (Stage::Synchronize, "stream.synchronize failed: x"),
        (Stage::CopyBack, "copy_to failed: x"),
    ] {
        assert_eq!(stage.failure("x"), text);
    }
}

#[test]
fn additions_are_laid_end_to_end() {
    let commands = [add(&[1, 2], &[10, 20]), add(&[9], &[]), add(&[], &[]), add(&[3], &[30])];
    let refs: Vec<&Command<i32>> = commands.iter().collect();
    assert!(can_coalesce(&refs));
    let batch = VectorAddBatch::plan(&refs);
    match batch.launch() {
        Some(Launch::VectorAdd { a, b }) => {
            assert_eq!(a, &[1, 2, 3]);
            assert_eq!(b, &[10, 20, 30]);
        }
        _ => panic!("there is something to add"),
    }
    assert_eq!(
        batch.conclude(Some(Ok(vec![100, 200, 300]))),
        vec![
            Ok(vec![100, 200]),
            Err("length mismatch: 1 vs 0".to_string()),
            Ok(vec![]),
            Ok(vec![300]),
        ]
    );
}

#[test]
fn a_failed_launch_fails_only_its_own_commands() {
    let commands = [add(&[1, 2], &[10, 20]), add(&[9], &[]), add(&[], &[]), add(&[3], &[30])];
    let refs: Vec<&Command<i32>> = commands.iter().collect();
    let batch = VectorAddBatch::plan(&refs);
    assert_eq!(
        batch.conclude(Some(Err("kernel launch failed: x".to_string()))),
        vec![
            Err("kernel launch failed: x".to_string()),
            Err("length mismatch: 1 vs 0".to_string()),
            Ok(vec![]),
            Err("kernel launch failed: x".to_string()),
        ]
    );
}

#[test]
fn nothing_to_add_takes_no_launch() {
    let commands = [add(&[], &[]), add(&[1], &[])];
    let refs: Vec<&Command<i32>> = commands.iter().collect();
    let mut batch = CudaBatch::start(&refs);
    assert!(!batch.is_done());
    assert!(batch.pending().is_none());
    batch.resume(None);
    assert!(batch.is_done());
    assert_eq!(
        batch.finish(),
        vec![Ok(vec![]), Err("length mismatch: 1 vs 0".to_string())]
    );
}

#[test]
fn a_mixed_batch_waits_for_one_launch_at_a_time() {
    let commands = [
        add(&[1], &[2]),
        Command::Reduce { a: vec![] },
        Command::Reduce { a: vec![4, 5] },
    ];
    let refs: Vec<&Command<i32>> = commands.iter().collect();
    assert!(!can_coalesce(&refs));
    let mut batch = CudaBatch::start(&refs);
    let mut kernels = Vec::new();
    while !batch.is_done() {
        let reply = match batch.pending() {
            Some(launch) => {
                kernels.push(launch.kernel_name());
                Some(Ok(launch.execute(32)))
            }
            None => None,
        };
        batch.resume(reply);
    }
    assert_eq!(kernels, vec!["vector_add", "reduce_sum"]);
    assert_eq!(batch.finish(), vec![Ok(vec![3]), Ok(vec![0]), Ok(vec![9])]);
}

#[test]
fn a_batch_of_one_comes_to_the_same_as_its_command() {
    let command = add(&[1, 2], &[3, 4]);
    let refs = [&command];
    let mut batch = CudaBatch::start(&refs);
    match batch.pending() {
        Some(Launch::VectorAdd { a, b }) => {
            assert_eq!(a, &[1, 2]);
            assert_eq!(b, &[3, 4]);
        }
        _ => panic!("there is something to add"),
    }
    batch.resume(Some(Ok(vec![40, 60])));
    assert_eq!(batch.finish(), vec![conclude(&command, Ok(vec![40, 60]))]);
}

#[test]
fn an_empty_batch_is_done_at_once() {
    let refs: Vec<&Command<i32>> = Vec::new();
    assert!(!can_coalesce(&refs));
    let batch = CudaBatch::start(&refs);
    assert!(batch.is_done());
    assert_eq!(batch.finish(), vec![]);
}
