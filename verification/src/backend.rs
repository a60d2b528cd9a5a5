//! Validation of commands, the backend interface, and the CPU backend.

use vstd::arithmetic::div_mod::lemma_fundamental_div_mod_converse;
use vstd::prelude::*;

use crate::job::{full_product, Command};
use crate::scalar::{
    addition_commutes, multiplication_commutes, neutral_factor, products, products_of, sum, sum_of,
    sums, sums_of, zeroed, Scalar,
};
use crate::text::{decimal, decimal_text};

verus! {

/// What a command comes to: the elements of the result, or the text of the
/// error.
pub type Outcome<T> = Result<Seq<T>, Seq<char>>;

/// A returned result as an [`Outcome`].
pub open spec fn outcome<T>(result: Result<Vec<T>, String>) -> Outcome<T> {
    match result {
        Ok(values) => Ok(values@),
        Err(reason) => Err(reason@),
    }
}

/// Returned results as outcomes, in order.
pub open spec fn outcomes<T>(results: Seq<Result<Vec<T>, String>>) -> Seq<Outcome<T>> {
    results.map_values(|r: Result<Vec<T>, String>| outcome(r))
}

/// A reply as an [`Outcome`], if there was one.
pub open spec fn answer<T>(reply: Option<Result<Vec<T>, String>>) -> Option<Outcome<T>> {
    match reply {
        Some(result) => Some(outcome(result)),
        None => None,
    }
}

/// The commands behind a sequence of references.
pub open spec fn commands_of<T>(refs: Seq<&Command<T>>) -> Seq<Command<T>> {
    refs.map_values(|c: &Command<T>| *c)
}

/// The message for two vectors of different lengths.
pub open spec fn length_mismatch(x: nat, y: nat) -> Seq<char> {
    "length mismatch: "@ + decimal(x) + " vs "@ + decimal(y)
}

/// The message for a left matrix of the wrong size.
pub open spec fn left_size_mismatch(len: nat, mk: nat) -> Seq<char> {
    "matmul: `a` has "@ + decimal(len) + " elements, expected m*k = "@ + decimal(mk)
}

/// The message for a right matrix of the wrong size.
pub open spec fn right_size_mismatch(len: nat, kn: nat) -> Seq<char> {
    "matmul: `b` has "@ + decimal(len) + " elements, expected k*n = "@ + decimal(kn)
}

/// What is wrong with the sizes of a command, if anything. The left matrix is
/// looked at before the right one.
pub open spec fn size_error<T>(command: Command<T>) -> Option<Seq<char>> {
    match command {
        Command::VectorAdd { a, b } | Command::DotProduct { a, b } => if a@.len() == b@.len() {
            None
        } else {
            Some(length_mismatch(a@.len(), b@.len()))
        },
        Command::Reduce { a } => None,
        Command::MatMul { a, b, m, n, k } => if a@.len() != m * k {
            Some(left_size_mismatch(a@.len(), (m * k) as nat))
        } else if b@.len() != k * n {
            Some(right_size_mismatch(b@.len(), (k * n) as nat))
        } else {
            None
        },
    }
}

/// The products that make up one entry of a matrix product.
pub open spec fn entry_terms<T: Scalar>(
    a: Seq<T>,
    b: Seq<T>,
    n: nat,
    k: nat,
    row: int,
    col: int,
    upto: nat,
) -> Seq<T> {
    Seq::new(upto, |j: int| a[row * k + j].times_spec(b[j * n + col]))
}

/// The matrix product `C = A * B`, row-major: `A` is `m x k`, `B` is `k x n`.
pub open spec fn matrix_product<T: Scalar>(
    a: Seq<T>,
    b: Seq<T>,
    m: nat,
    n: nat,
    k: nat,
) -> Seq<T> {
    Seq::new(m * n, |p: int| sum(entry_terms(a, b, n, k, p / (n as int), p % (n as int), k)))
}

/// The value of a command whose sizes are right.
pub open spec fn value<T: Scalar>(command: Command<T>) -> Seq<T> {
    match command {
        Command::VectorAdd { a, b } => sums(a@, b@),
        Command::Reduce { a } => seq![sum(a@)],
        Command::DotProduct { a, b } => seq![sum(products(a@, b@))],
        Command::MatMul { a, b, m, n, k } => matrix_product(a@, b@, m as nat, n as nat, k as nat),
    }
}

/// What a command comes to: its size error if it has one, else its value.
pub open spec fn expected<T: Scalar>(command: Command<T>) -> Outcome<T> {
    match size_error(command) {
        Some(reason) => Err(reason),
        None => Ok(value(command)),
    }
}

/// Checks that two vectors have one length.
pub fn check_length<T>(a: &[T], b: &[T]) -> (result: Result<(), String>)
    ensures
        result is Ok <==> a@.len() == b@.len(),
        result matches Err(reason) ==> reason@ == length_mismatch(a@.len(), b@.len()) && reason@
            == "length mismatch: "@ + decimal(a@.len()) + " vs "@ + decimal(b@.len()),
{
    if a.len() == b.len() {
        Ok(())
    } else {
        let mut reason = "length mismatch: ".to_owned();
        reason.append(decimal_text(a.len() as u128).as_str());
        reason.append(" vs ");
        reason.append(decimal_text(b.len() as u128).as_str());
        Err(reason)
    }
}

/// Checks that `a` holds `m x k` and `b` holds `k x n` elements. The products are
/// taken in full: sizes beyond any buffer are wrong sizes like any other.
pub fn check_matmul_dims<T>(a: &[T], b: &[T], m: usize, n: usize, k: usize) -> (result: Result<
    (),
    String,
>)
    ensures
        result is Ok <==> a@.len() == m * k && b@.len() == k * n,
        result matches Err(reason) ==> reason@ == (if a@.len() != m * k {
            left_size_mismatch(a@.len(), (m * k) as nat)
        } else {
            right_size_mismatch(b@.len(), (k * n) as nat)
        }),
        a@.len() != m * k ==> (result matches Err(reason) && reason@ == "matmul: `a` has "@
            + decimal(a@.len()) + " elements, expected m*k = "@ + decimal((m * k) as nat)),
        a@.len() == m * k && b@.len() != k * n ==> (result matches Err(reason) && reason@
            == "matmul: `b` has "@ + decimal(b@.len()) + " elements, expected k*n = "@ + decimal(
            (k * n) as nat,
        )),
{
    let mk = full_product(m, k);
    if a.len() as u128 != mk {
        let mut reason = "matmul: `a` has ".to_owned();
        reason.append(decimal_text(a.len() as u128).as_str());
        reason.append(" elements, expected m*k = ");
        reason.append(decimal_text(mk).as_str());
        return Err(reason);
    }
    let kn = full_product(k, n);
    if b.len() as u128 != kn {
        let mut reason = "matmul: `b` has ".to_owned();
        reason.append(decimal_text(b.len() as u128).as_str());
        reason.append(" elements, expected k*n = ");
        reason.append(decimal_text(kn).as_str());
        return Err(reason);
    }
    Ok(())
}

/// The commands were run one after another, each from the state the one before
/// it left behind. `step` says what one run may do.
pub open spec fn in_order<S, T>(
    step: spec_fn(S, Command<T>, S, Outcome<T>) -> bool,
    pre: S,
    commands: Seq<Command<T>>,
    post: S,
    results: Seq<Outcome<T>>,
) -> bool
    decreases commands.len(),
{
    if commands.len() == 0 {
        results.len() == 0 && pre == post
    } else {
        results.len() == commands.len() && exists|mid: S|
            #![trigger step(mid, commands.last(), post, results.last())]
            in_order(step, pre, commands.drop_last(), mid, results.drop_last()) && step(
                mid,
                commands.last(),
                post,
                results.last(),
            )
    }
}

/// A run in order does one step per command, and each result belongs to the
/// command at its position.
pub proof fn each_result_belongs_to_its_command<S, T>(
    step: spec_fn(S, Command<T>, S, Outcome<T>) -> bool,
    pre: S,
    commands: Seq<Command<T>>,
    post: S,
    results: Seq<Outcome<T>>,
    i: int,
)
    requires
        in_order(step, pre, commands, post, results),
        0 <= i < commands.len(),
    ensures
        results.len() == commands.len(),
        exists|s: S, t: S| #[trigger] step(s, commands[i], t, results[i]),
    decreases commands.len(),
{
    let mid = choose|mid: S|
        #![trigger step(mid, commands.last(), post, results.last())]
        in_order(step, pre, commands.drop_last(), mid, results.drop_last()) && step(
            mid,
            commands.last(),
            post,
            results.last(),
        );
    if i < commands.len() - 1 {
        each_result_belongs_to_its_command(
            step,
            pre,
            commands.drop_last(),
            mid,
            results.drop_last(),
            i,
        );
    }
}

/// Steps that leave the state alone make up a run in order.
pub proof fn lemma_stateless_in_order<S, T>(
    step: spec_fn(S, Command<T>, S, Outcome<T>) -> bool,
    state: S,
    commands: Seq<Command<T>>,
    results: Seq<Outcome<T>>,
)
    requires
        results.len() == commands.len(),
        forall|i: int|
            0 <= i < commands.len() ==> step(state, #[trigger] commands[i], state, results[i]),
    ensures
        in_order(step, state, commands, state, results),
    decreases commands.len(),
{
    if commands.len() > 0 {
        let (less, fewer) = (commands.drop_last(), results.drop_last());
        assert forall|i: int| 0 <= i < less.len() implies step(
            state,
            #[trigger] less[i],
            state,
            fewer[i],
        ) by {
            assert(less[i] == commands[i]);
        }
        lemma_stateless_in_order(step, state, less, fewer);
        assert(commands.last() == commands[commands.len() - 1]);
        assert(step(state, commands.last(), state, results.last()));
    }
}

/// Something that runs commands.
pub trait Backend<T: Scalar>: Sized {
    /// Running `command` in state `pre` may lead to state `post` and to
    /// `result`. A backend that promises nothing keeps the default.
    open spec fn ran(pre: Self, command: Command<T>, post: Self, result: Outcome<T>) -> bool {
        true
    }

    /// Running `commands` as one batch in state `pre` may lead to state `post`
    /// and to `results`. Unless a backend can do better, a batch is a run of
    /// its commands one after another.
    open spec fn ran_batch(
        pre: Self,
        commands: Seq<Command<T>>,
        post: Self,
        results: Seq<Outcome<T>>,
    ) -> bool {
        in_order(
            |s: Self, c: Command<T>, t: Self, o: Outcome<T>| Self::ran(s, c, t, o),
            pre,
            commands,
            post,
            results,
        )
    }

    /// Runs one command.
    fn run(&mut self, command: &Command<T>) -> (result: Result<Vec<T>, String>)
        requires
            command.fits(),
        ensures
            Self::ran(*old(self), *command, *final(self), outcome(result)),
    ;

    /// Runs several commands as one batch and returns one result per input, in
    /// the same order. A backend that can do no better than one call per command
    /// passes the batch on to [`Backend::run_one_by_one`].
    fn run_batch(&mut self, commands: &[&Command<T>]) -> (results: Vec<Result<Vec<T>, String>>)
        requires
            forall|i: int| 0 <= i < commands@.len() ==> (#[trigger] commands@[i]).fits(),
        ensures
            results@.len() == commands@.len(),
            Self::ran_batch(
                *old(self),
                commands_of(commands@),
                *final(self),
                outcomes(results@),
            ),
    ;

    /// Runs several commands one after another and returns one result per input,
    /// in the same order.
    fn run_one_by_one(&mut self, commands: &[&Command<T>]) -> (results: Vec<
        Result<Vec<T>, String>,
    >)
        requires
            forall|i: int| 0 <= i < commands@.len() ==> (#[trigger] commands@[i]).fits(),
        ensures
            results@.len() == commands@.len(),
            in_order(
                |s: Self, c: Command<T>, t: Self, o: Outcome<T>| Self::ran(s, c, t, o),
                *old(self),
                commands_of(commands@),
                *final(self),
                outcomes(results@),
            ),
    {
        let mut results: Vec<Result<Vec<T>, String>> = Vec::new();
        let mut i: usize = 0;
        let ghost all = commands_of(commands@);
        let ghost step = |s: Self, c: Command<T>, t: Self, o: Outcome<T>| Self::ran(s, c, t, o);
        assert(all.take(0).len() == 0);
        while i < commands.len()
            invariant
                i <= commands@.len(),
                all == commands_of(commands@),
                step == (|s: Self, c: Command<T>, t: Self, o: Outcome<T>| Self::ran(s, c, t, o)),
                results@.len() == i,
                forall|i: int| 0 <= i < commands@.len() ==> (#[trigger] commands@[i]).fits(),
                in_order(step, *old(self), all.take(i as int), *self, outcomes(results@)),
            decreases commands@.len() - i,
        {
            let ghost mid = *self;
            let ghost before = results@;
            let result = self.run(commands[i]);
            results.push(result);
            proof {
                let done = all.take(i + 1);
                assert(done.drop_last() =~= all.take(i as int));
                assert(outcomes(results@).drop_last() =~= outcomes(before));
                assert(step(mid, done.last(), *self, outcomes(results@).last()));
            }
            i += 1;
        }
        assert(all.take(i as int) =~= all);
        results
    }
}

/// Runs every command on the host, in plain loops.
pub struct CpuBackend;

impl<T: Scalar> Backend<T> for CpuBackend {
    open spec fn ran(pre: Self, command: Command<T>, post: Self, result: Outcome<T>) -> bool {
        result == expected(command)
    }

    fn run(&mut self, command: &Command<T>) -> (result: Result<Vec<T>, String>)
        ensures
            outcome(result) == expected(*command),
            match *command {
                Command::VectorAdd { a, b } => a@.len() == b@.len() ==> {
                    &&& result is Ok
                    &&& result->Ok_0@.len() == a@.len()
                    &&& forall|i: int|
                        0 <= i < a@.len() ==> #[trigger] result->Ok_0@[i] == a@[i].plus_spec(b@[i])
                },
                Command::Reduce { a } => result is Ok && result->Ok_0@ == seq![sum(a@)],
                Command::DotProduct { a, b } => a@.len() == b@.len() ==> {
                    &&& result is Ok
                    &&& result->Ok_0@ == seq![
                        sum(Seq::new(a@.len(), |i: int| a@[i].times_spec(b@[i]))),
                    ]
                },
                Command::MatMul { a, b, m, n, k } => a@.len() == m * k && b@.len() == k * n ==> {
                    &&& result is Ok
                    &&& result->Ok_0@.len() == m * n
                    &&& forall|row: int, col: int|
                        #![trigger result->Ok_0@[row * n + col]]
                        0 <= row < m && 0 <= col < n ==> result->Ok_0@[row * n + col] == sum(
                            Seq::new(
                                k as nat,
                                |j: int| a@[row * k + j].times_spec(b@[j * n + col]),
                            ),
                        )
                },
            },
    {
        let result = match command {
            Command::VectorAdd { a, b } => {
                match check_length(a.as_slice(), b.as_slice()) {
                    Err(reason) => Err(reason),
                    Ok(()) => Ok(sums_of(a.as_slice(), b.as_slice())),
                }
            },
            Command::Reduce { a } => {
                let total = sum_of(a.as_slice());
                Ok(vec![total])
            },
            Command::DotProduct { a, b } => {
                match check_length(a.as_slice(), b.as_slice()) {
                    Err(reason) => Err(reason),
                    Ok(()) => {
                        let terms = products_of(a.as_slice(), b.as_slice());
                        let total = sum_of(terms.as_slice());
                        Ok(vec![total])
                    },
                }
            },
            Command::MatMul { a, b, m, n, k } => {
                match check_matmul_dims(a.as_slice(), b.as_slice(), *m, *n, *k) {
                    Err(reason) => Err(reason),
                    Ok(()) => {
                        assert(a.len() == *m * *k && b.len() == *k * *n);
                        Ok(multiply(a.as_slice(), b.as_slice(), *m, *n, *k))
                    },
                }
            },
        };
        assert(outcome(result) == expected(*command)) by {
            match (outcome(result), expected(*command)) {
                (Ok(x), Ok(y)) => {
                    assert(x =~= y);
                },
                _ => {},
            }
        }
        assert(<Self as Backend<T>>::ran(*old(self), *command, *self, outcome(result)));
        proof {
            results_are_what_the_elements_say(*command, result);
        }
        result
    }

    fn run_batch(&mut self, commands: &[&Command<T>]) -> (results: Vec<Result<Vec<T>, String>>) {
        self.run_one_by_one(commands)
    }
}

/// Row-major positions fall inside the buffer, and division takes them apart
/// again.
pub proof fn lemma_row_major(rows: nat, cols: nat, row: int, col: int)
    requires
        0 <= row < rows,
        0 <= col < cols,
    ensures
        0 <= row * cols,
        row * cols + col < rows * cols,
        (row * cols + col) / (cols as int) == row,
        (row * cols + col) % (cols as int) == col,
{
    assert(0 <= row * cols) by (nonlinear_arith)
        requires
            0 <= row,
            0 <= cols,
    ;
    assert(row * cols + cols <= rows * cols) by (nonlinear_arith)
        requires
            row + 1 <= rows,
            0 <= cols,
    ;
    lemma_fundamental_div_mod_converse(row * cols + col, cols as int, row, col);
}

/// One entry of the matrix product: a row of `a` times a column of `b`.
fn entry<T: Scalar>(
    a: &[T],
    b: &[T],
    m: usize,
    n: usize,
    k: usize,
    row: usize,
    col: usize,
) -> (total: T)
    requires
        a@.len() == m * k <= usize::MAX,
        b@.len() == k * n <= usize::MAX,
        row < m,
        col < n,
    ensures
        total == sum(entry_terms(a@, b@, n as nat, k as nat, row as int, col as int, k as nat)),
{
    let mut total = T::zero();
    let mut kk: usize = 0;
    while kk < k
        invariant
            kk <= k,
            a@.len() == m * k <= usize::MAX,
            b@.len() == k * n <= usize::MAX,
            row < m,
            col < n,
            total == sum(
                entry_terms(a@, b@, n as nat, k as nat, row as int, col as int, kk as nat),
            ),
        decreases k - kk,
    {
        let ghost terms = entry_terms(
            a@,
            b@,
            n as nat,
            k as nat,
            row as int,
            col as int,
            (kk + 1) as nat,
        );
        proof {
            lemma_row_major(m as nat, k as nat, row as int, kk as int);
            lemma_row_major(k as nat, n as nat, kk as int, col as int);
            assert(terms.drop_last() =~= entry_terms(
                a@,
                b@,
                n as nat,
                k as nat,
                row as int,
                col as int,
                kk as nat,
            ));
        }
        total = total.plus(a[row * k + kk].times(b[kk * n + col]));
        kk += 1;
    }
    total
}

/// Multiplies an `m x k` matrix by a `k x n` matrix, both row-major.
fn multiply<T: Scalar>(a: &[T], b: &[T], m: usize, n: usize, k: usize) -> (c: Vec<T>)
    requires
        a@.len() == m * k <= usize::MAX,
        b@.len() == k * n <= usize::MAX,
        m * n <= usize::MAX,
    ensures
        c@ == matrix_product(a@, b@, m as nat, n as nat, k as nat),
{
    let mut c: Vec<T> = zeroed(m * n);
    let ghost product = matrix_product(a@, b@, m as nat, n as nat, k as nat);
    let mut row: usize = 0;
    while row < m
        invariant
            row <= m,
            a@.len() == m * k <= usize::MAX,
            b@.len() == k * n <= usize::MAX,
            m * n <= usize::MAX,
            c@.len() == m * n,
            product == matrix_product(a@, b@, m as nat, n as nat, k as nat),
            forall|p: int| 0 <= p < row * n ==> c@[p] == product[p],
        decreases m - row,
    {
        let mut col: usize = 0;
        while col < n
            invariant
                row < m,
                col <= n,
                a@.len() == m * k <= usize::MAX,
                b@.len() == k * n <= usize::MAX,
                m * n <= usize::MAX,
                c@.len() == m * n,
                product == matrix_product(a@, b@, m as nat, n as nat, k as nat),
                forall|p: int| 0 <= p < row * n + col ==> c@[p] == product[p],
            decreases n - col,
        {
            proof {
                lemma_row_major(m as nat, n as nat, row as int, col as int);
            }
            let total = entry(a, b, m, n, k, row, col);
            c[row * n + col] = total;
            col += 1;
        }
        assert((row + 1) * n == row * n + n) by (nonlinear_arith);
        row += 1;
    }
    assert(c@ =~= product);
    c
}

/// What a result must satisfy, on the elements of the operands and of the result. A
/// vector addition has one sum per pair, a sum and a dot product one element, and a
/// matrix product one entry per row and column, a row of the left matrix times a
/// column of the right one. There is an error exactly if sizes disagree, and it
/// gives both sizes.
pub proof fn results_are_what_the_elements_say<T: Scalar>(
    command: Command<T>,
    result: Result<Vec<T>, String>,
)
    requires
        outcome(result) == expected(command),
    ensures
        match command {
            Command::VectorAdd { a, b } => {
                &&& result is Ok <==> a@.len() == b@.len()
                &&& result is Ok ==> {
                    &&& result->Ok_0@.len() == a@.len()
                    &&& forall|i: int|
                        0 <= i < a@.len() ==> #[trigger] result->Ok_0@[i] == a@[i].plus_spec(b@[i])
                }
                &&& result is Err ==> result->Err_0@ == "length mismatch: "@ + decimal(a@.len())
                    + " vs "@ + decimal(b@.len())
            },
            Command::Reduce { a } => result is Ok && result->Ok_0@ == seq![sum(a@)],
            Command::DotProduct { a, b } => {
                &&& result is Ok <==> a@.len() == b@.len()
                &&& result is Ok ==> result->Ok_0@ == seq![
                    sum(Seq::new(a@.len(), |i: int| a@[i].times_spec(b@[i]))),
                ]
                &&& result is Err ==> result->Err_0@ == "length mismatch: "@ + decimal(a@.len())
                    + " vs "@ + decimal(b@.len())
            },
            Command::MatMul { a, b, m, n, k } => {
                &&& result is Ok <==> a@.len() == m * k && b@.len() == k * n
                &&& result is Ok ==> {
                    &&& result->Ok_0@.len() == m * n
                    &&& forall|row: int, col: int|
                        #![trigger result->Ok_0@[row * n + col]]
                        0 <= row < m && 0 <= col < n ==> result->Ok_0@[row * n + col] == sum(
                            Seq::new(
                                k as nat,
                                |j: int| a@[row * k + j].times_spec(b@[j * n + col]),
                            ),
                        )
                }
                &&& a@.len() != m * k ==> result->Err_0@ == "matmul: `a` has "@ + decimal(a@.len())
                    + " elements, expected m*k = "@ + decimal((m * k) as nat)
                &&& a@.len() == m * k && b@.len() != k * n ==> result->Err_0@
                    == "matmul: `b` has "@ + decimal(b@.len()) + " elements, expected k*n = "@
                    + decimal((k * n) as nat)
            },
        },
{
    if result is Ok {
        let out = result->Ok_0@;
        match command {
            Command::DotProduct { a, b } => {
                assert(products(a@, b@) =~= Seq::new(
                    a@.len(),
                    |i: int| a@[i].times_spec(b@[i]),
                ));
            },
            Command::MatMul { a, b, m, n, k } => {
                assert forall|row: int, col: int|
                    #![trigger out[row * n + col]]
                    0 <= row < m && 0 <= col < n implies out[row * n + col] == sum(
                    Seq::new(k as nat, |j: int| a@[row * k + j].times_spec(b@[j * n + col])),
                ) by {
                    lemma_row_major(m as nat, n as nat, row, col);
                    assert(entry_terms(a@, b@, n as nat, k as nat, row, col, k as nat)
                        =~= Seq::new(
                        k as nat,
                        |j: int| a@[row * k + j].times_spec(b@[j * n + col]),
                    ));
                }
            },
            _ => {},
        }
    }
}

/// Where the order of two summands does not matter, neither does the order of the
/// vectors in a vector addition.
pub proof fn vector_add_swaps<T: Scalar>(command: Command<T>, swapped: Command<T>)
    requires
        addition_commutes::<T>(),
        command matches Command::VectorAdd { a, b } && swapped == (Command::VectorAdd {
            a: b,
            b: a,
        }) && a@.len() == b@.len(),
    ensures
        expected(command) == expected(swapped),
{
    if let Command::VectorAdd { a, b } = command {
        assert(sums(a@, b@) =~= sums(b@, a@));
    }
}

/// Where the order of two factors does not matter, neither does the order of the
/// vectors in a dot product.
pub proof fn dot_product_swaps<T: Scalar>(command: Command<T>, swapped: Command<T>)
    requires
        multiplication_commutes::<T>(),
        command matches Command::DotProduct { a, b } && swapped == (Command::DotProduct {
            a: b,
            b: a,
        }) && a@.len() == b@.len(),
    ensures
        expected(command) == expected(swapped),
{
    if let Command::DotProduct { a, b } = command {
        assert(products(a@, b@) =~= products(b@, a@));
    }
}

/// A dot product with nothing but neutral factors is a sum.
pub proof fn dot_product_with_ones_is_the_sum<T: Scalar>(
    command: Command<T>,
    reduce: Command<T>,
    one: T,
)
    requires
        neutral_factor(one),
        command matches Command::DotProduct { a, b } && reduce == (Command::Reduce { a })
            && a@.len() == b@.len() && forall|i: int| 0 <= i < b@.len() ==> #[trigger] b@[i] == one,
    ensures
        expected(command) == expected(reduce),
{
    if let Command::DotProduct { a, b } = command {
        assert(products(a@, b@) =~= a@);
    }
}

/// On the CPU backend a command comes to the same every time it is run.
pub proof fn cpu_runs_repeat<T: Scalar>(
    command: Command<T>,
    pre: (CpuBackend, CpuBackend),
    post: (CpuBackend, CpuBackend),
    results: (Outcome<T>, Outcome<T>),
)
    requires
        <CpuBackend as Backend<T>>::ran(pre.0, command, post.0, results.0),
        <CpuBackend as Backend<T>>::ran(pre.1, command, post.1, results.1),
    ensures
        results.0 == results.1,
{
}

/// On the CPU backend a batch comes to what its commands come to one by one.
pub proof fn cpu_batch_is_one_by_one<T: Scalar>(
    pre: CpuBackend,
    commands: Seq<Command<T>>,
    post: CpuBackend,
    results: Seq<Outcome<T>>,
)
    requires
        <CpuBackend as Backend<T>>::ran_batch(pre, commands, post, results),
    ensures
        results == commands.map_values(|c: Command<T>| expected(c)),
{
    let step = |s: CpuBackend, c: Command<T>, t: CpuBackend, o: Outcome<T>|
        <CpuBackend as Backend<T>>::ran(s, c, t, o);
    assert forall|i: int| 0 <= i < commands.len() implies results[i] == expected(commands[i]) by {
        each_result_belongs_to_its_command(step, pre, commands, post, results, i);
        let (s, t) = choose|s: CpuBackend, t: CpuBackend| #[trigger]
            step(s, commands[i], t, results[i]);
        assert(<CpuBackend as Backend<T>>::ran(s, commands[i], t, results[i]));
    }
    assert(results =~= commands.map_values(|c: Command<T>| expected(c)));
}

} // verus!
