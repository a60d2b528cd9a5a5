//! The entry points that a caller's launch requests arrive at, and the shape of
//! the messages that go back.

use vstd::prelude::*;

use crate::job::{Command, Job};

verus! {

/// The words that requests are answered with.
pub enum Atom {
    Okay,
    Error,
    InvalidDevice,
    Erlcuda,
}

impl Atom {
    /// How the word is spelled.
    pub open spec fn spelling(self) -> Seq<char> {
        match self {
            Atom::Okay => "ok"@,
            Atom::Error => "error"@,
            Atom::InvalidDevice => "invalid_device"@,
            Atom::Erlcuda => "erlcuda"@,
        }
    }

    /// Spells the word out.
    pub fn name(&self) -> (text: &'static str)
        ensures
            text@ == self.spelling(),
    {
        match self {
            Atom::Okay => "ok",
            Atom::Error => "error",
            Atom::InvalidDevice => "invalid_device",
            Atom::Erlcuda => "erlcuda",
        }
    }
}

/// Checks that `device` is one of `count` devices, which are numbered from
/// zero.
pub fn validate_device(device: u32, count: u32) -> (result: Result<(), Atom>)
    ensures
        result == (if device < count {
            Ok(())
        } else {
            Err(Atom::InvalidDevice)
        }),
{
    if device >= count {
        Err(Atom::InvalidDevice)
    } else {
        Ok(())
    }
}

/// The number after `id`. After the last 64-bit number, counting starts over.
pub open spec fn id_after(id: u64) -> u64 {
    if id == u64::MAX {
        0
    } else {
        (id + 1) as u64
    }
}

/// Hands out job numbers.
pub struct JobIds {
    next: u64,
}

impl JobIds {
    /// The number that will be handed out next.
    pub closed spec fn next(self) -> u64 {
        self.next
    }

    /// Starts counting at one.
    pub fn new() -> (ids: Self)
        ensures
            ids.next() == 1,
    {
        JobIds { next: 1 }
    }

    /// Hands the next number out.
    pub fn issue(&mut self) -> (id: u64)
        ensures
            id == old(self).next(),
            final(self).next() == id_after(id),
            id < u64::MAX ==> final(self).next() == id + 1,
            id == u64::MAX ==> final(self).next() == 0,
    {
        let id = self.next;
        self.next = id.wrapping_add(1);
        id
    }
}

/// The number handed out after `n` others, counting from `start`.
pub open spec fn nth_id(start: u64, n: nat) -> u64
    decreases n,
{
    if n == 0 {
        start
    } else {
        id_after(nth_id(start, (n - 1) as nat))
    }
}

proof fn lemma_nth_id(start: u64, n: nat)
    ensures
        nth_id(start, n) == (start + n) % 0x1_0000_0000_0000_0000,
    decreases n,
{
    if n > 0 {
        lemma_nth_id(start, (n - 1) as nat);
    }
}

/// Job numbers do not repeat until all 64-bit numbers have been handed out.
pub proof fn job_ids_are_distinct(start: u64, i: nat, j: nat)
    requires
        i < j,
        j - i <= u64::MAX,
    ensures
        nth_id(start, i) != nth_id(start, j),
{
    lemma_nth_id(start, i);
    lemma_nth_id(start, j);
}

/// What becomes of a launch request: a job under the next number, or a refusal
/// that uses up no number.
pub open spec fn launched<T, P>(
    result: Result<Job<T, P>, Atom>,
    before: JobIds,
    after: JobIds,
    device: u32,
    count: u32,
    pid: P,
    command: Command<T>,
) -> bool {
    if device < count {
        &&& result == Ok::<Job<T, P>, Atom>(Job { id: before.next(), pid, command })
        &&& after.next() == id_after(before.next())
    } else {
        &&& result == Err::<Job<T, P>, Atom>(Atom::InvalidDevice)
        &&& after == before
    }
}

/// Makes a command for a device into a job, if there is such a device.
fn launch<T, P>(
    ids: &mut JobIds,
    command: Command<T>,
    device: u32,
    count: u32,
    pid: P,
) -> (result: Result<Job<T, P>, Atom>)
    ensures
        launched(result, *old(ids), *final(ids), device, count, pid, command),
{
    match validate_device(device, count) {
        Err(reason) => Err(reason),
        Ok(()) => {
            let id = ids.issue();
            Ok(Job { id, pid, command })
        },
    }
}

/// Takes a request for a vector addition on one of `count` devices.
pub fn launch_vector_add<T, P>(
    ids: &mut JobIds,
    a: Vec<T>,
    b: Vec<T>,
    device: u32,
    count: u32,
    pid: P,
) -> (result: Result<Job<T, P>, Atom>)
    ensures
        launched(
            result,
            *old(ids),
            *final(ids),
            device,
            count,
            pid,
            Command::VectorAdd { a, b },
        ),
        device < count ==> (result matches Ok(job) && job.id == old(ids).next() && job.pid == pid
            && job.command == (Command::VectorAdd { a, b })),
        device >= count ==> result == Err::<Job<T, P>, Atom>(Atom::InvalidDevice),
{
    launch(ids, Command::VectorAdd { a, b }, device, count, pid)
}

/// Takes a request for a sum on one of `count` devices.
pub fn launch_reduce<T, P>(
    ids: &mut JobIds,
    a: Vec<T>,
    device: u32,
    count: u32,
    pid: P,
) -> (result: Result<Job<T, P>, Atom>)
    ensures
        launched(result, *old(ids), *final(ids), device, count, pid, Command::Reduce { a }),
        device < count ==> (result matches Ok(job) && job.id == old(ids).next() && job.pid == pid
            && job.command == (Command::Reduce { a })),
        device >= count ==> result == Err::<Job<T, P>, Atom>(Atom::InvalidDevice),
{
    launch(ids, Command::Reduce { a }, device, count, pid)
}

/// Takes a request for a dot product on one of `count` devices.
pub fn launch_dot_product<T, P>(
    ids: &mut JobIds,
    a: Vec<T>,
    b: Vec<T>,
    device: u32,
    count: u32,
    pid: P,
) -> (result: Result<Job<T, P>, Atom>)
    ensures
        launched(
            result,
            *old(ids),
            *final(ids),
            device,
            count,
            pid,
            Command::DotProduct { a, b },
        ),
        device < count ==> (result matches Ok(job) && job.id == old(ids).next() && job.pid == pid
            && job.command == (Command::DotProduct { a, b })),
        device >= count ==> result == Err::<Job<T, P>, Atom>(Atom::InvalidDevice),
{
    launch(ids, Command::DotProduct { a, b }, device, count, pid)
}

/// Takes a request for a matrix product on one of `count` devices.
pub fn launch_matmul<T, P>(
    ids: &mut JobIds,
    a: Vec<T>,
    b: Vec<T>,
    m: usize,
    n: usize,
    k: usize,
    device: u32,
    count: u32,
    pid: P,
) -> (result: Result<Job<T, P>, Atom>)
    ensures
        launched(
            result,
            *old(ids),
            *final(ids),
            device,
            count,
            pid,
            Command::MatMul { a, b, m, n, k },
        ),
        device < count ==> (result matches Ok(job) && job.id == old(ids).next() && job.pid == pid
            && job.command == (Command::MatMul { a, b, m, n, k })),
        device >= count ==> result == Err::<Job<T, P>, Atom>(Atom::InvalidDevice),
{
    launch(ids, Command::MatMul { a, b, m, n, k }, device, count, pid)
}

/// The last part of an outcome message.
pub enum Payload<T> {
    Values(Vec<T>),
    Reason(String),
}

/// An outcome message: `{erlcuda, Id, {ok, Values}}` or
/// `{erlcuda, Id, {error, Reason}}`.
pub struct Message<T> {
    pub tag: Atom,
    pub id: u64,
    pub status: Atom,
    pub payload: Payload<T>,
}

/// Puts the result of job `id` into the message for the process that waits for
/// it.
pub fn outcome_message<T>(id: u64, result: Result<Vec<T>, String>) -> (message: Message<T>)
    ensures
        message.tag == Atom::Erlcuda,
        message.id == id,
        match result {
            Ok(values) => message.status == Atom::Okay && message.payload == Payload::Values(values),
            Err(reason) => message.status == Atom::Error && message.payload
                == Payload::<T>::Reason(reason),
        },
{
    match result {
        Ok(values) => Message {
            tag: Atom::Erlcuda,
            id,
            status: Atom::Okay,
            payload: Payload::Values(values),
        },
        Err(reason) => Message {
            tag: Atom::Erlcuda,
            id,
            status: Atom::Error,
            payload: Payload::Reason(reason),
        },
    }
}

} // verus!
