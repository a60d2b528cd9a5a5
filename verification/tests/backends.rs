use erlcuda::backend::{check_length, check_matmul_dims, Backend, CpuBackend};
use erlcuda::job::Command;
use erlcuda::scalar::Scalar;
use erlcuda::simulate::GridBackend;

#[derive(Clone, Copy, Debug, PartialEq)]
struct Real(f32);

impl Scalar for Real {
    fn zero() -> Real {
        Real(0.0)
    }

    fn plus(self, other: Real) -> Real {
        Real(self.0 + other.0)
    }

    fn times(self, other: Real) -> Real {
        Real(self.0 * other.0)
    }
}

fn reals(values: &[f32]) -> Vec<Real> {
    values.iter().map(|v| Real(*v)).collect()
}

fn vector_add(a: &[f32], b: &[f32]) -> Command<Real> {
    Command::VectorAdd {
        a: reals(a),
        b: reals(b),
    }
}

fn grid() -> GridBackend {
    GridBackend::new(256)
}

#[test]
fn adds_equal_length_vectors() {
    let mut backend = CpuBackend;
    let result = backend
        .run(&vector_add(&[1.0, 2.0, 3.0], &[10.0, 20.0, 30.0]))
        .unwrap();
    assert_eq!(result, reals(&[11.0, 22.0, 33.0]));
}

#[test]
fn rejects_mismatched_lengths() {
    let mut backend = CpuBackend;
    let err = backend
        .run(&vector_add(&[1.0, 2.0], &[1.0]))
        .unwrap_err();
    assert!(err.contains("length mismatch"));
    assert_eq!(err, "length mismatch: 2 vs 1");
}

#[test]
fn cuda_backend_matches_cpu_backend() {
    let mut cpu = CpuBackend;
    let mut cuda = grid();

    let command = vector_add(&[1.0, 2.0, 3.0, 4.0, 5.0], &[10.0, 20.0, 30.0, 40.0, 50.0]);

    let expected = cpu.run(&command).unwrap();
    let actual = cuda.run(&command).unwrap();

    assert_eq!(actual, expected);
    assert_eq!(actual, reals(&[11.0, 22.0, 33.0, 44.0, 55.0]));
}

#[test]
fn cuda_backend_matches_cpu_backend_across_multiple_blocks() {
    let mut cpu = CpuBackend;
    let mut cuda = grid();

    let len = 100_000;
    let a: Vec<Real> = (0..len).map(|i| Real(i as f32)).collect();
    let b: Vec<Real> = (0..len).map(|i| Real((i as f32) * 2.0)).collect();
    let command = Command::VectorAdd { a, b };

    let expected = cpu.run(&command).unwrap();
    let actual = cuda.run(&command).unwrap();

    assert_eq!(actual, expected);
}

#[test]
fn cuda_backend_batch_matches_cpu_backend_per_job_with_different_lengths() {
    let mut cpu = CpuBackend;
    let mut cuda = grid();

    let commands = [
        vector_add(&[1.0, 2.0, 3.0], &[10.0, 20.0, 30.0]),
        vector_add(&[1.0], &[100.0]),
        vector_add(&[5.0, 6.0, 7.0, 8.0, 9.0], &[0.5, 0.5, 0.5, 0.5, 0.5]),
    ];
    let command_refs: Vec<&Command<Real>> = commands.iter().collect();

    let results = cuda.run_batch(&command_refs);
    assert_eq!(results.len(), commands.len());

    for (command, result) in commands.iter().zip(results) {
        let expected = cpu.run(command).unwrap();
        assert_eq!(result.unwrap(), expected);
    }
}

#[test]
fn cuda_backend_batch_isolates_a_length_mismatch_from_the_other_jobs() {
    let mut cuda = grid();

    let commands = [
        vector_add(&[1.0, 2.0], &[10.0, 20.0]),
        vector_add(&[1.0, 2.0, 3.0], &[1.0]),
        vector_add(&[5.0], &[50.0]),
    ];
    let command_refs: Vec<&Command<Real>> = commands.iter().collect();

    let results = cuda.run_batch(&command_refs);

    assert_eq!(results[0].as_ref().unwrap(), &reals(&[11.0, 22.0]));
    assert!(results[1].as_ref().unwrap_err().contains("length mismatch"));
    assert_eq!(results[2].as_ref().unwrap(), &reals(&[55.0]));
}

#[test]
fn cuda_backend_batch_handles_an_empty_pair() {
    let mut cuda = grid();

    let commands = [
        vector_add(&[], &[]),
        vector_add(&[1.0, 2.0], &[10.0, 20.0]),
    ];
    let command_refs: Vec<&Command<Real>> = commands.iter().collect();

    let results = cuda.run_batch(&command_refs);

    assert_eq!(results[0].as_ref().unwrap(), &Vec::<Real>::new());
    assert_eq!(results[1].as_ref().unwrap(), &reals(&[11.0, 22.0]));
}

#[test]
fn cuda_backend_batch_of_only_empty_pairs_does_not_touch_the_gpu_launch() {
    let mut cuda = grid();

    let commands = [vector_add(&[], &[])];
    let command_refs: Vec<&Command<Real>> = commands.iter().collect();

    let results = cuda.run_batch(&command_refs);

    assert_eq!(results[0].as_ref().unwrap(), &Vec::<Real>::new());
}

#[test]
fn reduces_small_vector_on_cpu() {
    let mut backend = CpuBackend;
    let result = backend
        .run(&Command::Reduce {
            a: reals(&[1.0, 2.0, 3.0, 4.0]),
        })
        .unwrap();
    assert_eq!(result, reals(&[10.0]));
}

#[test]
fn cuda_backend_reduce_matches_cpu_backend_small() {
    let mut cpu = CpuBackend;
    let mut cuda = grid();

    let command = Command::Reduce {
        a: reals(&[1.0, 2.0, 3.0, 4.0, 5.0]),
    };

    let expected = cpu.run(&command).unwrap();
    let actual = cuda.run(&command).unwrap();

    assert_eq!(actual, expected);
    assert_eq!(actual, reals(&[15.0]));
}

#[test]
fn cuda_backend_reduce_matches_cpu_backend_across_multiple_blocks() {
    let mut cpu = CpuBackend;
    let mut cuda = grid();

    // Bounded values keep the rounding differences between the two orders of
    // summation small.
    let len = 100_000;
    let a: Vec<Real> = (0..len).map(|i| Real((i % 7) as f32)).collect();
    let command = Command::Reduce { a };

    let expected = cpu.run(&command).unwrap()[0].0;
    let actual = cuda.run(&command).unwrap()[0].0;

    let tolerance = expected.abs() * 1e-4 + 1e-3;
    assert!(
        (actual - expected).abs() <= tolerance,
        "expected ~{expected}, got {actual} (tolerance {tolerance})"
    );
}

#[test]
fn cuda_backend_reduce_of_empty_vector_is_zero() {
    let mut cuda = grid();
    let result = cuda.run(&Command::Reduce { a: reals(&[]) }).unwrap();
    assert_eq!(result, reals(&[0.0]));
}

#[test]
fn dot_product_small_vectors_on_cpu() {
    let mut backend = CpuBackend;
    let result = backend
        .run(&Command::DotProduct {
            a: reals(&[1.0, 2.0, 3.0]),
            b: reals(&[4.0, 5.0, 6.0]),
        })
        .unwrap();
    assert_eq!(result, reals(&[32.0]));
}

#[test]
fn dot_product_rejects_mismatched_lengths_on_cpu() {
    let mut backend = CpuBackend;
    let err = backend
        .run(&Command::DotProduct {
            a: reals(&[1.0, 2.0]),
            b: reals(&[1.0]),
        })
        .unwrap_err();
    assert!(err.contains("length mismatch"));
}

#[test]
fn cuda_backend_dot_product_matches_cpu_backend_across_multiple_blocks() {
    let mut cpu = CpuBackend;
    let mut cuda = grid();

    let len = 100_000;
    let a: Vec<Real> = (0..len).map(|i| Real((i % 5) as f32)).collect();
    let b: Vec<Real> = (0..len).map(|i| Real((i % 3) as f32)).collect();
    let command = Command::DotProduct { a, b };

    let expected = cpu.run(&command).unwrap()[0].0;
    let actual = cuda.run(&command).unwrap()[0].0;

    let tolerance = expected.abs() * 1e-4 + 1e-3;
    assert!(
        (actual - expected).abs() <= tolerance,
        "expected ~{expected}, got {actual} (tolerance {tolerance})"
    );
}

#[test]
fn matmul_2x2_on_cpu() {
    let mut backend = CpuBackend;
    let result = backend
        .run(&Command::MatMul {
            a: reals(&[1.0, 2.0, 3.0, 4.0]),
            b: reals(&[5.0, 6.0, 7.0, 8.0]),
            m: 2,
            n: 2,
            k: 2,
        })
        .unwrap();
    assert_eq!(result, reals(&[19.0, 22.0, 43.0, 50.0]));
}

#[test]
fn matmul_rejects_wrong_sized_a_on_cpu() {
    let mut backend = CpuBackend;
    let err = backend
        .run(&Command::MatMul {
            a: reals(&[1.0, 2.0, 3.0]),
            b: reals(&[5.0, 6.0, 7.0, 8.0]),
            m: 2,
            n: 2,
            k: 2,
        })
        .unwrap_err();
    assert!(err.contains("matmul"));
    assert_eq!(err, "matmul: `a` has 3 elements, expected m*k = 4");
}

#[test]
fn cuda_backend_matmul_2x2_matches_cpu_backend() {
    let mut cpu = CpuBackend;
    let mut cuda = grid();

    let command = Command::MatMul {
        a: reals(&[1.0, 2.0, 3.0, 4.0]),
        b: reals(&[5.0, 6.0, 7.0, 8.0]),
        m: 2,
        n: 2,
        k: 2,
    };

    let expected = cpu.run(&command).unwrap();
    let actual = cuda.run(&command).unwrap();

    assert_eq!(actual, expected);
}

#[test]
fn cuda_backend_matmul_non_square_matches_cpu_backend() {
    // All three dimensions differ and cross a tile boundary, so rows and columns
    // cannot be mixed up without notice.
    let mut cpu = CpuBackend;
    let mut cuda = grid();

    let (m, n, k) = (64, 32, 48);
    let a: Vec<Real> = (0..(m * k)).map(|i| Real((i % 13) as f32 * 0.5)).collect();
    let b: Vec<Real> = (0..(k * n)).map(|i| Real((i % 7) as f32 * 0.25)).collect();
    let command = Command::MatMul { a, b, m, n, k };

    let expected = cpu.run(&command).unwrap();
    let actual = cuda.run(&command).unwrap();

    assert_eq!(actual.len(), expected.len());
    for (i, (a_val, e_val)) in actual.iter().zip(expected.iter()).enumerate() {
        let tolerance = e_val.0.abs() * 1e-3 + 1e-2;
        assert!(
            (a_val.0 - e_val.0).abs() <= tolerance,
            "mismatch at index {i}: expected {e_val:?}, got {a_val:?}"
        );
    }
}

#[test]
fn cuda_backend_matmul_partial_tile_matches_cpu_backend() {
    // No dimension is a multiple of the tile size.
    let mut cpu = CpuBackend;
    let mut cuda = grid();

    let (m, n, k) = (20, 17, 33);
    let a: Vec<Real> = (0..(m * k)).map(|i| Real((i % 11) as f32 * 0.5)).collect();
    let b: Vec<Real> = (0..(k * n)).map(|i| Real((i % 9) as f32 * 0.25)).collect();
    let command = Command::MatMul { a, b, m, n, k };

    let expected = cpu.run(&command).unwrap();
    let actual = cuda.run(&command).unwrap();

    assert_eq!(actual.len(), expected.len());
    for (i, (a_val, e_val)) in actual.iter().zip(expected.iter()).enumerate() {
        let tolerance = e_val.0.abs() * 1e-3 + 1e-2;
        assert!(
            (a_val.0 - e_val.0).abs() <= tolerance,
            "mismatch at index {i}: expected {e_val:?}, got {a_val:?}"
        );
    }
}

#[test]
fn both_backends_reject_in_the_same_words() {
    let bad_b = Command::MatMul {
        a: reals(&[1.0, 2.0]),
        b: reals(&[1.0, 2.0, 3.0]),
        m: 1,
        n: 2,
        k: 2,
    };
    let bad_dot = Command::DotProduct {
        a: reals(&[1.0; 12]),
        b: reals(&[1.0; 100]),
    };
    for (command, text) in [
        (bad_b, "matmul: `b` has 3 elements, expected k*n = 4"),
        (bad_dot, "length mismatch: 12 vs 100"),
    ] {
        let on_cpu = CpuBackend.run(&command).unwrap_err();
        let on_grid = grid().run(&command).unwrap_err();
        assert_eq!(on_cpu, text);
        assert_eq!(on_grid, text);
    }
}

#[test]
fn length_check_words_both_lengths() {
    assert_eq!(check_length(&[1u8, 2], &[3u8, 4]), Ok(()));
    assert_eq!(
        check_length(&[0u8; 1024], &[]),
        Err("length mismatch: 1024 vs 0".to_string())
    );
}

#[test]
fn dimension_check_looks_at_the_left_matrix_first() {
    assert_eq!(check_matmul_dims(&[0u8; 6], &[0u8; 12], 2, 4, 3), Ok(()));
    assert_eq!(
        check_matmul_dims(&[0u8; 5], &[0u8; 5], 2, 4, 3),
        Err("matmul: `a` has 5 elements, expected m*k = 6".to_string())
    );
    assert_eq!(
        check_matmul_dims(&[0u8; 6], &[0u8; 5], 2, 4, 3),
        Err("matmul: `b` has 5 elements, expected k*n = 12".to_string())
    );
}

#[test]
fn sizes_that_do_not_fit_are_recognised() {
    // Both matrices are empty as they should be, but the result is not.
    let huge = Command::<i32>::MatMul {
        a: vec![],
        b: vec![],
        m: usize::MAX,
        n: 2,
        k: 0,
    };
    assert!(!huge.sizes_fit());
    // The right matrix no longer matters once the left one is wrong.
    let wrong_left = Command::<i32>::MatMul {
        a: vec![1],
        b: vec![],
        m: 1,
        n: usize::MAX,
        k: 2,
    };
    assert!(wrong_left.sizes_fit());
    assert_eq!(
        CpuBackend.run(&wrong_left).unwrap_err(),
        "matmul: `a` has 1 elements, expected m*k = 2"
    );
    assert!(Command::Reduce { a: vec![1] }.sizes_fit());
}

#[test]
fn products_are_taken_in_full() {
    // Both products are multiples of the number of machine words.
    let half = 1usize << (usize::BITS - 1);
    let text = format!(
        "matmul: `a` has 0 elements, expected m*k = {}",
        half as u128 * 2
    );
    assert_eq!(
        check_matmul_dims::<i32>(&[], &[], half, half, 2),
        Err(text.clone())
    );
    let command = Command::<i32>::MatMul {
        a: vec![],
        b: vec![],
        m: half,
        n: half,
        k: 2,
    };
    assert!(command.sizes_fit());
    assert_eq!(CpuBackend.run(&command), Err(text.clone()));
    assert_eq!(grid().run(&command), Err(text));
    assert_eq!(
        check_matmul_dims(&[1, 2], &[0; 0], 1, half, 2),
        Err(format!(
            "matmul: `b` has 0 elements, expected k*n = {}",
            half as u128 * 2
        ))
    );
}

#[test]
fn empty_matrices_on_both_backends() {
    for (m, n, k) in [(0, 0, 0), (0, 3, 2), (3, 0, 2)] {
        let command = Command::MatMul {
            a: vec![Real(1.0); m * k],
            b: vec![Real(1.0); k * n],
            m,
            n,
            k,
        };
        assert_eq!(CpuBackend.run(&command), Ok(vec![]));
        assert_eq!(grid().run(&command), Ok(vec![]));
    }
}

#[test]
fn operands_may_be_swapped() {
    let (a, b) = (reals(&[1.5, -2.0, 3.25]), reals(&[4.0, 0.5, -1.0]));
    let add = |a: &Vec<Real>, b: &Vec<Real>| Command::VectorAdd {
        a: a.clone(),
        b: b.clone(),
    };
    let dot = |a: &Vec<Real>, b: &Vec<Real>| Command::DotProduct {
        a: a.clone(),
        b: b.clone(),
    };
    assert_eq!(CpuBackend.run(&add(&a, &b)), Ok(reals(&[5.5, -1.5, 2.25])));
    assert_eq!(CpuBackend.run(&add(&b, &a)), CpuBackend.run(&add(&a, &b)));
    assert_eq!(CpuBackend.run(&dot(&a, &b)), Ok(reals(&[1.75])));
    assert_eq!(CpuBackend.run(&dot(&b, &a)), CpuBackend.run(&dot(&a, &b)));
    assert_eq!(grid().run(&dot(&b, &a)), grid().run(&dot(&a, &b)));
    // The same command comes to the same again.
    assert_eq!(CpuBackend.run(&dot(&a, &b)), CpuBackend.run(&dot(&a, &b)));
}

#[test]
fn dot_products_are_sums_of_products() {
    let a: Vec<i32> = (0..700).collect();
    let b: Vec<i32> = (0..700).map(|i| 3 - i).collect();
    let products: Vec<i32> = a.iter().zip(&b).map(|(x, y)| x * y).collect();
    let dot = |a: &Vec<i32>, b: &Vec<i32>| Command::DotProduct {
        a: a.clone(),
        b: b.clone(),
    };
    let sum = |a: &Vec<i32>| Command::Reduce { a: a.clone() };
    assert_eq!(grid().run(&dot(&a, &b)), grid().run(&sum(&products)));
    let ones = vec![1; 700];
    assert_eq!(grid().run(&dot(&a, &ones)), Ok(vec![244_650]));
    assert_eq!(grid().run(&dot(&a, &ones)), grid().run(&sum(&a)));
    assert_eq!(CpuBackend.run(&dot(&a, &ones)), CpuBackend.run(&sum(&a)));
}

#[test]
fn sums_ignore_order_and_split() {
    // Small whole numbers are summed exactly, in any order.
    let a: Vec<Real> = (0..1000).map(|i| Real((i % 17) as f32 - 8.0)).collect();
    let backwards: Vec<Real> = a.iter().rev().copied().collect();
    let sum = |a: &[Real]| grid().run(&Command::Reduce { a: a.to_vec() }).unwrap()[0].0;
    assert_eq!(sum(&a), -21.0);
    assert_eq!(sum(&backwards), sum(&a));
    assert_eq!(sum(&a[..300]) + sum(&a[300..]), sum(&a));
}

#[test]
fn whole_numbers_are_summed_exactly() {
    let len = 100_000;
    let a: Vec<Real> = (0..len).map(|i| Real((i % 5) as f32)).collect();
    let b: Vec<Real> = (0..len).map(|i| Real((i % 3) as f32)).collect();
    let sum = Command::Reduce {
        a: (0..len).map(|i| Real((i % 7) as f32)).collect(),
    };
    let dot = Command::DotProduct {
        a: a.clone(),
        b: b.clone(),
    };
    let swapped = Command::DotProduct { a: b, b: a.clone() };
    let with_ones = Command::DotProduct {
        a,
        b: vec![Real(1.0); len],
    };
    for (command, number) in [
        (sum, 299_995.0),
        (dot, 199_997.0),
        (swapped, 199_997.0),
        (with_ones, 200_000.0),
    ] {
        assert_eq!(CpuBackend.run(&command), Ok(reals(&[number])));
        assert_eq!(grid().run(&command), Ok(reals(&[number])));
    }
}

#[test]
fn float_matrix_products_agree_to_the_bit() {
    let (m, n, k) = (20, 17, 33);
    let a: Vec<Real> = (0..(m * k)).map(|i| Real((i as f32 * 0.7).sin())).collect();
    let b: Vec<Real> = (0..(k * n)).map(|i| Real((i as f32 * 1.3).cos())).collect();
    let command = Command::MatMul { a, b, m, n, k };
    let bits = |v: Vec<Real>| v.iter().map(|x| x.0.to_bits()).collect::<Vec<u32>>();
    assert_eq!(
        bits(grid().run(&command).unwrap()),
        bits(CpuBackend.run(&command).unwrap())
    );
}

#[test]
fn empty_operands_on_both_backends() {
    let dot = Command::<i32>::DotProduct {
        a: vec![],
        b: vec![],
    };
    assert_eq!(CpuBackend.run(&dot), Ok(vec![0]));
    assert_eq!(grid().run(&dot), Ok(vec![0]));
    let sum = Command::<i32>::Reduce { a: vec![] };
    assert_eq!(CpuBackend.run(&sum), Ok(vec![0]));
    // No common dimension: a matrix of zeros.
    let product = Command::<i32>::MatMul {
        a: vec![],
        b: vec![],
        m: 2,
        n: 3,
        k: 0,
    };
    assert_eq!(CpuBackend.run(&product), Ok(vec![0; 6]));
    assert_eq!(grid().run(&product), Ok(vec![0; 6]));
}

#[test]
fn integer_results_agree_exactly_for_any_block_size() {
    let len = 1000;
    let a: Vec<i32> = (0..len).map(|i| i * 1_000_003).collect();
    let b: Vec<i32> = (0..len).map(|i| i32::MAX - i * 7).collect();
    for block_size in [1, 7, 256, 1024, 5000] {
        for command in [
            Command::VectorAdd {
                a: a.clone(),
                b: b.clone(),
            },
            Command::Reduce { a: a.clone() },
            Command::DotProduct {
                a: a.clone(),
                b: b.clone(),
            },
            Command::MatMul {
                a: a[..19 * 23].to_vec(),
                b: b[..23 * 37].to_vec(),
                m: 19,
                n: 37,
                k: 23,
            },
        ] {
            let expected = CpuBackend.run(&command);
            assert!(expected.is_ok());
            assert_eq!(GridBackend::new(block_size).run(&command), expected);
        }
    }
}

#[test]
fn mixed_batches_run_one_by_one() {
    let commands = [
        Command::Reduce { a: vec![1, 2, 3] },
        Command::VectorAdd {
            a: vec![1],
            b: vec![2],
        },
        Command::VectorAdd {
            a: vec![1],
            b: vec![],
        },
        Command::DotProduct {
            a: vec![2, 3],
            b: vec![4, 5],
        },
    ];
    let refs: Vec<&Command<i32>> = commands.iter().collect();
    let expected = vec![
        Ok(vec![6]),
        Ok(vec![3]),
        Err("length mismatch: 1 vs 0".to_string()),
        Ok(vec![23]),
    ];
    assert_eq!(grid().run_batch(&refs), expected);
    let alone: Vec<_> = refs.iter().map(|c| grid().run(c)).collect();
    assert_eq!(alone, expected);
    assert_eq!(CpuBackend.run_batch(&refs), expected);
    assert_eq!(grid().run_batch(&Vec::<&Command<i32>>::new()), vec![]);
}
