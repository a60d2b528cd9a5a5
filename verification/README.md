# erlcuda

GPU compute for the BEAM: Erlang and Elixir code launches CUDA kernels written
in Rust and gets the results back as messages. This crate holds the logic
between the BEAM and the device, written in [Verus](https://github.com/verus-lang/verus)
and proved against its contracts.

Four kernels are available: `vector_add`, `reduce`, `dot_product` and `matmul`.
Each device has one worker thread. A worker takes the jobs that are queued right
now, up to 256, as a batch. A batch of vector additions alone is coalesced into
a single launch; any other batch runs one job at a time, in order.

| module     | what it holds                                                        |
|------------|----------------------------------------------------------------------|
| `scalar`   | element arithmetic, and sums over sequences                          |
| `text`     | numbers in messages                                                  |
| `job`      | commands and jobs                                                    |
| `backend`  | validation, the `Backend` trait, the CPU backend                     |
| `kernels`  | the kernels, thread by thread or block by block                      |
| `order`    | threads and blocks may run in any order                              |
| `grid`     | launch geometry, whole launches, and what they add up to             |
| `device`   | launches as the device sees them, and the wording of failures        |
| `cuda`     | from commands to launches and from replies to results                |
| `coalesce` | a batch of vector additions as one launch                            |
| `simulate` | the launches carried out in software; the CUDA path matches the CPU  |
| `exact`    | sums of whole numbers come out exact, also in floating point         |
| `queue`    | a worker's end of its channel                                        |
| `worker`   | draining a queue, serving a batch, the table of workers              |
| `nif`      | launch requests, job numbers, outcome messages                       |

Elements are generic: a theorem that needs more than "sums and products are
functions of their operands" says so. Vector additions, alone or coalesced, match
the CPU in any arithmetic; matrix products where adding `0 * 0` to a sum changes
nothing, as in floating point; sums and dot products where addition may be
reordered, and in floating point where all numbers are whole and small enough to
be exact. Every command of a batch comes to what it comes to on its own. Floating
point enters in `app/`.

`app/` is the native library around this crate: entry points for the BEAM
(`rustler`), worker threads, the device (`cust`) and the kernels as device code
(`cuda_std`). It needs an NVIDIA driver, the CUDA toolkit and the kernels
compiled to PTX; the environment variable `ERLCUDA_PTX` names the file.
