//! What the host asks of a device: kernel launches, and the words in which a
//! failed step is reported.

use vstd::prelude::*;

use crate::grid::{
    ceil_div, launched_product, launched_sums, low_bits, matmul_blocks, partial_sums,
    reduce_blocks, run_dot_product, run_matmul, run_reduce_sum, run_vector_add, vector_add_grid,
};
use crate::kernels::{MATMUL_TILE_SIZE, REDUCE_BLOCK_SIZE};
use crate::scalar::{products, Scalar};
use crate::text::{decimal, decimal_text};

verus! {

/// One kernel launch: the kernel, the buffers to upload and the grid.
///
/// The block size of a vector addition is for the device to suggest; the other
/// kernels have fixed blocks.
pub enum Launch<'c, T> {
    /// `vector_add` over two buffers.
    VectorAdd { a: &'c [T], b: &'c [T] },
    /// `reduce_sum` over one buffer, one partial sum per block.
    ReduceSum { a: &'c [T], grid_size: u32 },
    /// `dot_product` over two buffers, one partial sum per block.
    DotProduct { a: &'c [T], b: &'c [T], grid_size: u32 },
    /// `matmul` over two matrices.
    MatMul {
        a: &'c [T],
        b: &'c [T],
        m: usize,
        n: usize,
        k: usize,
        grid_x: u32,
        grid_y: u32,
    },
}

/// The threads of a launch: blocks per grid and threads per block, along x and
/// along y.
pub struct Geometry {
    pub grid: (u32, u32),
    pub block: (u32, u32),
}

/// The mathematical content of a [`Launch`].
pub enum Work<T> {
    VectorAdd { a: Seq<T>, b: Seq<T> },
    ReduceSum { a: Seq<T>, grid_size: nat },
    DotProduct { a: Seq<T>, b: Seq<T>, grid_size: nat },
    MatMul { a: Seq<T>, b: Seq<T>, m: nat, n: nat, k: nat, grid_x: nat, grid_y: nat },
}

impl<'c, T> View for Launch<'c, T> {
    type V = Work<T>;

    open spec fn view(&self) -> Work<T> {
        match *self {
            Launch::VectorAdd { a, b } => Work::VectorAdd { a: a@, b: b@ },
            Launch::ReduceSum { a, grid_size } => Work::ReduceSum {
                a: a@,
                grid_size: grid_size as nat,
            },
            Launch::DotProduct { a, b, grid_size } => Work::DotProduct {
                a: a@,
                b: b@,
                grid_size: grid_size as nat,
            },
            Launch::MatMul { a, b, m, n, k, grid_x, grid_y } => Work::MatMul {
                a: a@,
                b: b@,
                m: m as nat,
                n: n as nat,
                k: k as nat,
                grid_x: grid_x as nat,
                grid_y: grid_y as nat,
            },
        }
    }
}

impl<T> Work<T> {
    /// The number of elements in the output buffer.
    pub open spec fn out_len(self) -> nat {
        match self {
            Work::VectorAdd { a, b } => a.len(),
            Work::ReduceSum { a, grid_size } => grid_size,
            Work::DotProduct { a, b, grid_size } => grid_size,
            Work::MatMul { a, b, m, n, k, grid_x, grid_y } => m * n,
        }
    }

    /// The name under which the kernel is found in the device module.
    pub open spec fn kernel_name(self) -> Seq<char> {
        match self {
            Work::VectorAdd { .. } => "vector_add"@,
            Work::ReduceSum { .. } => "reduce_sum"@,
            Work::DotProduct { .. } => "dot_product"@,
            Work::MatMul { .. } => "matmul"@,
        }
    }

    /// The step that allocates the output.
    pub open spec fn alloc_stage(self) -> Stage {
        match self {
            Work::VectorAdd { .. } => Stage::AllocOut,
            Work::ReduceSum { .. } => Stage::AllocPartialSums,
            Work::DotProduct { .. } => Stage::AllocPartialSums,
            Work::MatMul { .. } => Stage::AllocC,
        }
    }

    /// The threads to start, if `suggested` is the block size that the device
    /// suggests for vector additions.
    pub open spec fn geometry(self, suggested: u32) -> Geometry {
        match self {
            Work::VectorAdd { a, b } => Geometry {
                grid: (ceil_div(low_bits(a.len()), suggested as nat) as u32, 1),
                block: (suggested, 1),
            },
            Work::ReduceSum { a, grid_size } => Geometry {
                grid: (grid_size as u32, 1),
                block: (REDUCE_BLOCK_SIZE as u32, 1),
            },
            Work::DotProduct { a, b, grid_size } => Geometry {
                grid: (grid_size as u32, 1),
                block: (REDUCE_BLOCK_SIZE as u32, 1),
            },
            Work::MatMul { a, b, m, n, k, grid_x, grid_y } => Geometry {
                grid: (grid_x as u32, grid_y as u32),
                block: (MATMUL_TILE_SIZE as u32, MATMUL_TILE_SIZE as u32),
            },
        }
    }

    /// The buffers agree with each other, and the grid is the one that the
    /// sizes call for.
    pub open spec fn well_formed(self) -> bool {
        match self {
            Work::VectorAdd { a, b } => a.len() == b.len(),
            Work::ReduceSum { a, grid_size } => grid_size == reduce_blocks(a.len()),
            Work::DotProduct { a, b, grid_size } => a.len() == b.len() && grid_size
                == reduce_blocks(a.len()),
            Work::MatMul { a, b, m, n, k, grid_x, grid_y } => {
                &&& a.len() == m * k <= usize::MAX
                &&& b.len() == k * n <= usize::MAX
                &&& m * n <= usize::MAX
                &&& grid_x == matmul_blocks(n)
                &&& grid_y == matmul_blocks(m)
            },
        }
    }
}

/// What a launch leaves in its output buffer, if `block_size` is the block size
/// that the device suggests for vector additions.
pub open spec fn computed<T: Scalar>(work: Work<T>, block_size: nat) -> Seq<T> {
    match work {
        Work::VectorAdd { a, b } => launched_sums(
            a,
            b,
            ceil_div(low_bits(a.len()), block_size),
            block_size,
        ),
        Work::ReduceSum { a, grid_size } => partial_sums(a, grid_size),
        Work::DotProduct { a, b, grid_size } => partial_sums(products(a, b), grid_size),
        Work::MatMul { a, b, m, n, k, grid_x, grid_y } => launched_product(
            a,
            b,
            m,
            n,
            k,
            grid_x,
            grid_y,
        ),
    }
}

impl<'c, T: Scalar> Launch<'c, T> {
    /// The number of elements to allocate for the output.
    pub fn out_len(&self) -> (len: usize)
        requires
            self@.well_formed(),
        ensures
            len == self@.out_len(),
    {
        match self {
            Launch::VectorAdd { a, b } => a.len(),
            Launch::ReduceSum { a, grid_size } => *grid_size as usize,
            Launch::DotProduct { a, b, grid_size } => *grid_size as usize,
            Launch::MatMul { a, b, m, n, k, grid_x, grid_y } => *m * *n,
        }
    }

    /// The name under which the kernel is found in the device module.
    pub fn kernel_name(&self) -> (name: &'static str)
        ensures
            name@ == self@.kernel_name(),
    {
        match self {
            Launch::VectorAdd { .. } => "vector_add",
            Launch::ReduceSum { .. } => "reduce_sum",
            Launch::DotProduct { .. } => "dot_product",
            Launch::MatMul { .. } => "matmul",
        }
    }

    /// The step that allocates the output, for the message should it fail.
    pub fn alloc_stage(&self) -> (stage: Stage)
        ensures
            stage == self@.alloc_stage(),
    {
        match self {
            Launch::VectorAdd { .. } => Stage::AllocOut,
            Launch::ReduceSum { .. } => Stage::AllocPartialSums,
            Launch::DotProduct { .. } => Stage::AllocPartialSums,
            Launch::MatMul { .. } => Stage::AllocC,
        }
    }

    /// The threads to start. `suggested` is the block size that the device
    /// suggests; only a vector addition goes by it.
    pub fn geometry(&self, suggested: u32) -> (geometry: Geometry)
        requires
            self is VectorAdd ==> suggested > 0,
        ensures
            geometry == self@.geometry(suggested),
    {
        match self {
            Launch::VectorAdd { a, b } => Geometry {
                grid: (vector_add_grid(a.len(), suggested), 1),
                block: (suggested, 1),
            },
            Launch::ReduceSum { a, grid_size } => Geometry {
                grid: (*grid_size, 1),
                block: (REDUCE_BLOCK_SIZE as u32, 1),
            },
            Launch::DotProduct { a, b, grid_size } => Geometry {
                grid: (*grid_size, 1),
                block: (REDUCE_BLOCK_SIZE as u32, 1),
            },
            Launch::MatMul { a, b, m, n, k, grid_x, grid_y } => Geometry {
                grid: (*grid_x, *grid_y),
                block: (MATMUL_TILE_SIZE as u32, MATMUL_TILE_SIZE as u32),
            },
        }
    }

    /// Runs the launch in software, block by block.
    pub fn execute(&self, block_size: u32) -> (out: Vec<T>)
        requires
            self@.well_formed(),
            block_size > 0,
        ensures
            out@ == computed(self@, block_size as nat),
    {
        match self {
            Launch::VectorAdd { a, b } => {
                let grid_size = vector_add_grid(a.len(), block_size);
                run_vector_add(a, b, grid_size, block_size)
            },
            Launch::ReduceSum { a, grid_size } => run_reduce_sum(a, *grid_size),
            Launch::DotProduct { a, b, grid_size } => run_dot_product(a, b, *grid_size),
            Launch::MatMul { a, b, m, n, k, grid_x, grid_y } => run_matmul(
                a,
                b,
                *m,
                *n,
                *k,
                *grid_x,
                *grid_y,
            ),
        }
    }
}

/// A step of setting a device up or of carrying out a launch.
pub enum Stage {
    Init,
    GetDevice { device: u32 },
    NewContext,
    SetFlags,
    LoadModule,
    NewStream,
    UploadA,
    UploadB,
    AllocOut,
    AllocPartialSums,
    AllocC,
    GetFunction,
    SuggestLaunch,
    KernelLaunch,
    Synchronize,
    CopyBack,
}

impl Stage {
    /// How a message names the step.
    pub open spec fn label(self) -> Seq<char> {
        match self {
            Stage::Init => "cust::init"@,
            Stage::GetDevice { device } => "Device::get_device("@ + decimal(device as nat) + ")"@,
            Stage::NewContext => "Context::new"@,
            Stage::SetFlags => "Context::set_flags"@,
            Stage::LoadModule => "Module::from_ptx"@,
            Stage::NewStream => "Stream::new"@,
            Stage::UploadA => "upload a"@,
            Stage::UploadB => "upload b"@,
            Stage::AllocOut => "alloc out"@,
            Stage::AllocPartialSums => "alloc partial_sums"@,
            Stage::AllocC => "alloc c"@,
            Stage::GetFunction => "get_function"@,
            Stage::SuggestLaunch => "suggested_launch_configuration"@,
            Stage::KernelLaunch => "kernel launch"@,
            Stage::Synchronize => "stream.synchronize"@,
            Stage::CopyBack => "copy_to"@,
        }
    }

    /// The message for a step that failed.
    pub open spec fn failure_text(self, reason: Seq<char>) -> Seq<char> {
        self.label() + " failed: "@ + reason
    }

    /// Names the step.
    fn name(&self) -> (text: String)
        ensures
            text@ == self.label(),
    {
        match self {
            Stage::Init => "cust::init".to_owned(),
            Stage::GetDevice { device } => {
                let mut text = "Device::get_device(".to_owned();
                text.append(decimal_text(*device as u128).as_str());
                text.append(")");
                text
            },
            Stage::NewContext => "Context::new".to_owned(),
            Stage::SetFlags => "Context::set_flags".to_owned(),
            Stage::LoadModule => "Module::from_ptx".to_owned(),
            Stage::NewStream => "Stream::new".to_owned(),
            Stage::UploadA => "upload a".to_owned(),
            Stage::UploadB => "upload b".to_owned(),
            Stage::AllocOut => "alloc out".to_owned(),
            Stage::AllocPartialSums => "alloc partial_sums".to_owned(),
            Stage::AllocC => "alloc c".to_owned(),
            Stage::GetFunction => "get_function".to_owned(),
            Stage::SuggestLaunch => "suggested_launch_configuration".to_owned(),
            Stage::KernelLaunch => "kernel launch".to_owned(),
            Stage::Synchronize => "stream.synchronize".to_owned(),
            Stage::CopyBack => "copy_to".to_owned(),
        }
    }

    /// Words the failure of a step.
    pub fn failure(&self, reason: &str) -> (text: String)
        ensures
            text@ == self.failure_text(reason@),
    {
        let mut text = self.name();
        text.append(" failed: ");
        text.append(reason);
        text
    }
}

} // verus!
