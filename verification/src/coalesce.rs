//! Coalescing a batch of vector additions into a single launch.
//!
//! The operands of all valid, non-empty additions are laid end to end in two
//! flat buffers, added in one launch, and the sum is cut up again by offset.
//! Additions of vectors of different lengths get their own error and empty ones
//! their empty result, without touching the device.

use vstd::prelude::*;

use crate::backend::{answer, check_length, commands_of, outcome, outcomes, Outcome};
use crate::cuda::settled;
use crate::device::{Launch, Work};
use crate::job::Command;
use crate::scalar::Scalar;

verus! {

/// The left operand of a vector addition.
pub open spec fn left<T>(command: Command<T>) -> Seq<T> {
    match command {
        Command::VectorAdd { a, b } => a@,
        _ => Seq::empty(),
    }
}

/// The right operand of a vector addition.
pub open spec fn right<T>(command: Command<T>) -> Seq<T> {
    match command {
        Command::VectorAdd { a, b } => b@,
        _ => Seq::empty(),
    }
}

/// The left operands of all commands that need the device, end to end.
pub open spec fn flat_left<T: Scalar>(commands: Seq<Command<T>>) -> Seq<T>
    decreases commands.len(),
{
    if commands.len() == 0 {
        Seq::empty()
    } else {
        let before = flat_left(commands.drop_last());
        if settled(commands.last()) is None {
            before + left(commands.last())
        } else {
            before
        }
    }
}

/// The right operands of all commands that need the device, end to end.
pub open spec fn flat_right<T: Scalar>(commands: Seq<Command<T>>) -> Seq<T>
    decreases commands.len(),
{
    if commands.len() == 0 {
        Seq::empty()
    } else {
        let before = flat_right(commands.drop_last());
        if settled(commands.last()) is None {
            before + right(commands.last())
        } else {
            before
        }
    }
}

/// Where the operands of command `i` start in the flat buffers.
pub open spec fn offset<T: Scalar>(commands: Seq<Command<T>>, i: int) -> int {
    flat_left(commands.take(i)).len() as int
}

/// Every command is a vector addition.
pub open spec fn all_additions<T>(commands: Seq<Command<T>>) -> bool {
    forall|i: int| 0 <= i < commands.len() ==> (#[trigger] commands[i]) is VectorAdd
}

/// The batch can be coalesced: it is not empty and holds vector additions only.
pub open spec fn coalesces<T>(commands: Seq<Command<T>>) -> bool {
    commands.len() > 0 && all_additions(commands)
}

/// What command `i` of a coalesced batch comes to, given the reply to the one
/// launch if there was one. A failed launch fails every command that was part
/// of it, and no other.
pub open spec fn coalesced_outcome<T: Scalar>(
    commands: Seq<Command<T>>,
    i: int,
    reply: Option<Outcome<T>>,
) -> Outcome<T> {
    match settled(commands[i]) {
        Some(known) => known,
        None => match reply->0 {
            Err(reason) => Err(reason),
            Ok(flat) => Ok(
                flat.subrange(offset(commands, i), offset(commands, i) + left(commands[i]).len()),
            ),
        },
    }
}

/// What a coalesced batch comes to, command by command.
pub open spec fn coalesced<T: Scalar>(
    commands: Seq<Command<T>>,
    reply: Option<Outcome<T>>,
) -> Seq<Outcome<T>> {
    Seq::new(commands.len(), |i: int| coalesced_outcome(commands, i, reply))
}

/// The launch that a batch of additions needs, if any.
pub open spec fn batch_work<T: Scalar>(commands: Seq<Command<T>>) -> Option<Work<T>> {
    if flat_left(commands).len() > 0 {
        Some(Work::VectorAdd { a: flat_left(commands), b: flat_right(commands) })
    } else {
        None
    }
}

/// The operands of command `i` are where [`offset`] says, in both buffers, and
/// the buffers have one length.
pub proof fn lemma_flat<T: Scalar>(commands: Seq<Command<T>>, i: int)
    requires
        all_additions(commands),
        0 <= i < commands.len(),
    ensures
        flat_left(commands).len() == flat_right(commands).len(),
        0 <= offset(commands, i) <= flat_left(commands).len(),
        settled(commands[i]) is None ==> {
            let (from, to) = (
                offset(commands, i),
                offset(commands, i) + left(commands[i]).len(),
            );
            &&& to <= flat_left(commands).len()
            &&& flat_left(commands).subrange(from, to) == left(commands[i])
            &&& flat_right(commands).subrange(from, to) == right(commands[i])
        },
    decreases commands.len(),
{
    let less = commands.drop_last();
    lemma_same_length(commands);
    lemma_same_length(less);
    if i == commands.len() - 1 {
        assert(commands.take(i) =~= less);
        if settled(commands[i]) is None {
            let (from, to) = (offset(commands, i), offset(commands, i) + left(commands[i]).len());
            assert(flat_left(commands).subrange(from, to) =~= left(commands[i]));
            assert(flat_right(commands).subrange(from, to) =~= right(commands[i]));
        }
    } else {
        lemma_flat(less, i);
        assert(less.take(i) =~= commands.take(i));
        if settled(commands[i]) is None {
            let (from, to) = (offset(commands, i), offset(commands, i) + left(commands[i]).len());
            assert(flat_left(commands).subrange(from, to) =~= flat_left(less).subrange(from, to));
            assert(flat_right(commands).subrange(from, to) =~= flat_right(less).subrange(
                from,
                to,
            ));
        }
    }
}

/// Both flat buffers have one length.
pub proof fn lemma_same_length<T: Scalar>(commands: Seq<Command<T>>)
    requires
        all_additions(commands),
    ensures
        flat_left(commands).len() == flat_right(commands).len(),
    decreases commands.len(),
{
    if commands.len() > 0 {
        lemma_same_length(commands.drop_last());
    }
}

/// The flat buffers are empty exactly when no command needs the device.
pub proof fn lemma_flat_empty<T: Scalar>(commands: Seq<Command<T>>)
    requires
        all_additions(commands),
    ensures
        flat_left(commands).len() == 0 <==> forall|i: int|
            0 <= i < commands.len() ==> settled(#[trigger] commands[i]) is Some,
    decreases commands.len(),
{
    if commands.len() > 0 {
        let less = commands.drop_last();
        lemma_flat_empty(less);
        if flat_left(commands).len() == 0 {
            assert forall|i: int| 0 <= i < commands.len() implies settled(
                #[trigger] commands[i],
            ) is Some by {
                if i < less.len() {
                    assert(less[i] == commands[i]);
                }
            }
        } else if forall|i: int| 0 <= i < commands.len() ==> settled(#[trigger] commands[i]) is Some {
            assert forall|i: int| 0 <= i < less.len() implies settled(#[trigger] less[i]) is Some by {
                assert(less[i] == commands[i]);
            }
        }
    }
}

/// Tells whether a batch can be coalesced.
pub fn can_coalesce<T: Scalar>(commands: &[&Command<T>]) -> (result: bool)
    ensures
        result == coalesces(commands_of(commands@)),
{
    let ghost all = commands_of(commands@);
    let mut i: usize = 0;
    while i < commands.len()
        invariant
            i <= commands@.len(),
            all == commands_of(commands@),
            forall|j: int| 0 <= j < i ==> (#[trigger] all[j]) is VectorAdd,
        decreases commands@.len() - i,
    {
        assert(all[i as int] == *commands@[i as int]);
        match commands[i] {
            Command::VectorAdd { .. } => {},
            _ => {
                return false;
            },
        }
        i += 1;
    }
    commands.len() > 0
}

fn extend<T: Scalar>(buffer: &mut Vec<T>, tail: &[T])
    ensures
        final(buffer)@ == old(buffer)@ + tail@,
{
    let mut i: usize = 0;
    assert(tail@.take(0) =~= Seq::<T>::empty());
    while i < tail.len()
        invariant
            i <= tail@.len(),
            buffer@ == old(buffer)@ + tail@.take(i as int),
        decreases tail@.len() - i,
    {
        buffer.push(tail[i]);
        assert(tail@.take(i + 1) =~= tail@.take(i as int).push(tail@[i as int]));
        i += 1;
    }
    assert(tail@.take(i as int) =~= tail@);
}

fn cut<T: Scalar>(buffer: &[T], from: usize, len: usize) -> (part: Vec<T>)
    requires
        from + len <= buffer@.len(),
    ensures
        part@ == buffer@.subrange(from as int, from + len),
{
    let mut part: Vec<T> = Vec::new();
    let size: usize = buffer.len();
    let mut i: usize = 0;
    while i < len
        invariant
            i <= len,
            from + len <= size == buffer@.len(),
            part@ == buffer@.subrange(from as int, from + i),
        decreases len - i,
    {
        part.push(buffer[from + i]);
        i += 1;
    }
    part
}

/// A batch of vector additions, laid out for one launch.
pub struct VectorAddBatch<T> {
    results: Vec<Result<Vec<T>, String>>,
    spans: Vec<Option<(usize, usize)>>,
    flat_a: Vec<T>,
    flat_b: Vec<T>,
    commands: Ghost<Seq<Command<T>>>,
}

impl<T: Scalar> VectorAddBatch<T> {
    /// The commands of the batch.
    pub closed spec fn commands(self) -> Seq<Command<T>> {
        self.commands@
    }

    /// Slot `i` holds the known outcome of its command, or the place of its
    /// operands in the flat buffers.
    spec fn slot_filled(
        commands: Seq<Command<T>>,
        i: int,
        result: Result<Vec<T>, String>,
        span: Option<(usize, usize)>,
    ) -> bool {
        match settled(commands[i]) {
            Some(known) => span is None && outcome(result) == known,
            None => {
                &&& span is Some
                &&& (span->0).0 == offset(commands, i)
                &&& (span->0).1 == left(commands[i]).len()
            },
        }
    }

    /// The batch is laid out as its commands call for.
    pub closed spec fn well_formed(self) -> bool {
        &&& all_additions(self.commands@)
        &&& self.results@.len() == self.commands@.len()
        &&& self.spans@.len() == self.commands@.len()
        &&& self.flat_a@ == flat_left(self.commands@)
        &&& self.flat_b@ == flat_right(self.commands@)
        &&& forall|i: int|
            0 <= i < self.commands@.len() ==> Self::slot_filled(
                self.commands@,
                i,
                #[trigger] self.results@[i],
                self.spans@[i],
            )
    }

    /// Lays a batch out.
    pub fn plan(commands: &[&Command<T>]) -> (batch: Self)
        requires
            all_additions(commands_of(commands@)),
        ensures
            batch.well_formed(),
            batch.commands() == commands_of(commands@),
    {
        let ghost all = commands_of(commands@);
        let mut results: Vec<Result<Vec<T>, String>> = Vec::new();
        let mut spans: Vec<Option<(usize, usize)>> = Vec::new();
        let mut flat_a: Vec<T> = Vec::new();
        let mut flat_b: Vec<T> = Vec::new();
        let mut i: usize = 0;
        assert(all.take(0) =~= Seq::empty());
        while i < commands.len()
            invariant
                i <= commands@.len(),
                all == commands_of(commands@),
                all_additions(all),
                results@.len() == i,
                spans@.len() == i,
                flat_a@ == flat_left(all.take(i as int)),
                flat_b@ == flat_right(all.take(i as int)),
                forall|j: int|
                    0 <= j < i ==> Self::slot_filled(all, j, #[trigger] results@[j], spans@[j]),
            decreases commands@.len() - i,
        {
            let ghost command = all[i as int];
            assert(command == *commands@[i as int]);
            assert(all.take(i + 1).drop_last() =~= all.take(i as int));
            assert(all.take(i + 1).last() == command);
            if let Command::VectorAdd { a, b } = commands[i] {
                match check_length(a.as_slice(), b.as_slice()) {
                    Err(reason) => {
                        results.push(Err(reason));
                        spans.push(None);
                    },
                    Ok(()) => {
                        let empty: Vec<T> = Vec::new();
                        results.push(Ok(empty));
                        if a.len() == 0 {
                            spans.push(None);
                        } else {
                            spans.push(Some((flat_a.len(), a.len())));
                            extend(&mut flat_a, a.as_slice());
                            extend(&mut flat_b, b.as_slice());
                        }
                    },
                }
            }
            i += 1;
        }
        assert(all.take(i as int) =~= all);
        VectorAddBatch { results, spans, flat_a, flat_b, commands: Ghost(all) }
    }

    /// The launch that the batch needs, if any.
    pub fn launch(&self) -> (launch: Option<Launch<'_, T>>)
        requires
            self.well_formed(),
        ensures
            launch is Some <==> batch_work(self.commands()) is Some,
            launch matches Some(l) ==> Some(l@) == batch_work(self.commands())
                && l@.well_formed(),
    {
        proof {
            lemma_same_length(self.commands@);
        }
        if self.flat_a.len() > 0 {
            Some(Launch::VectorAdd { a: self.flat_a.as_slice(), b: self.flat_b.as_slice() })
        } else {
            None
        }
    }

    /// Cuts the device's reply up into one result per command, in order.
    pub fn conclude(self, reply: Option<Result<Vec<T>, String>>) -> (results: Vec<
        Result<Vec<T>, String>,
    >)
        requires
            self.well_formed(),
            reply is Some <==> batch_work(self.commands()) is Some,
            reply matches Some(Ok(out)) ==> out@.len() == flat_left(self.commands()).len(),
        ensures
            outcomes(results@) == coalesced(self.commands(), answer(reply)),
    {
        let ghost all = self.commands@;
        let mut results = self.results;
        let spans = self.spans;
        proof {
            lemma_flat_empty(all);
        }
        let mut i: usize = 0;
        while i < spans.len()
            invariant
                i <= spans@.len(),
                spans@.len() == all.len(),
                results@.len() == all.len(),
                all_additions(all),
                reply is None ==> forall|j: int|
                    0 <= j < all.len() ==> settled(#[trigger] all[j]) is Some,
                reply matches Some(Ok(out)) ==> out@.len() == flat_left(all).len(),
                forall|j: int|
                    0 <= j < i ==> outcome(#[trigger] results@[j]) == coalesced_outcome(
                        all,
                        j,
                        answer(reply),
                    ),
                forall|j: int|
                    i <= j < all.len() ==> Self::slot_filled(
                        all,
                        j,
                        #[trigger] results@[j],
                        spans@[j],
                    ),
            decreases spans@.len() - i,
        {
            let ghost before = results@;
            assert(Self::slot_filled(all, i as int, before[i as int], spans@[i as int]));
            proof {
                lemma_flat(all, i as int);
            }
            if let Some((from, len)) = spans[i] {
                match &reply {
                    Some(Ok(out)) => {
                        let part = cut(out.as_slice(), from, len);
                        results.set(i, Ok(part));
                    },
                    Some(Err(reason)) => {
                        results.set(i, Err(reason.clone()));
                    },
                    None => {
                        assert(settled(all[i as int]) is Some);
                    },
                }
            }
            assert(outcome(results@[i as int]) == coalesced_outcome(all, i as int, answer(reply)));
            i += 1;
        }
        assert(outcomes(results@) =~= coalesced(all, answer(reply)));
        results
    }
}

} // verus!
