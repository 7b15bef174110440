//! Priming the page cache, one file at a time.
//!
//! The library performs no system call itself. For each file it decides which
//! call comes next and what a reply to it means; the caller performs the call
//! and hands the reply back. A [`FileTask`] does this for one file, a [`Batch`]
//! for a list of files, one after the other.

use crate::number::{digits, push_digits};
use crate::text::{append_padded, append_str, padded, string_of};
use vstd::prelude::*;

verus! {

/// The longest span that one read-ahead hint covers, in bytes.
pub const MAX_READAHEAD: u64 = 10 * 1024 * 1024;

/// The size of a page, in bytes.
pub const PAGE_SIZE: u64 = 4096;

/// What is done to each file of a batch.
#[derive(Clone, Copy, Debug, PartialEq, Eq, Structural)]
pub enum Operation {
    /// Look the file up and read its metadata.
    Touch,
    /// Ask the system to bring the file into the page cache.
    Warm,
    /// Lock the file's pages in memory; the mapping is left in place.
    Pin,
    /// Count how many of the file's pages are in the page cache.
    Probe,
}

/// A system call that the caller performs on the file at hand.
#[derive(Clone, Copy, Debug, PartialEq, Eq, Structural)]
pub enum Call {
    /// Open the file read-only.
    Open,
    /// Hint that the first `len` bytes will be read.
    ReadAhead { len: u64 },
    /// Ask for the file's size.
    Stat,
    /// Map the first `len` bytes privately, readable or without any access.
    MapFile { len: u64, readable: bool },
    /// Advise that the mapped `len` bytes will be needed.
    Advise { len: u64 },
    /// Lock the mapped `len` bytes in memory.
    Lock { len: u64 },
    /// Ask which pages of the mapped `len` bytes are resident.
    Residency { len: u64 },
    /// Remove the mapping of `len` bytes.
    Unmap { len: u64 },
    /// Close the descriptor.
    Close,
}

/// What the caller reports of a call.
#[derive(Debug)]
pub enum Reply {
    /// The call succeeded and has nothing to tell.
    Done,
    /// The call failed.
    Failed,
    /// The file's size in bytes, in answer to [`Call::Stat`].
    Size(u64),
    /// One byte per page, in answer to [`Call::Residency`]; the lowest bit of
    /// a byte is set when the page is resident.
    Pages(Vec<u8>),
}

/// How much of a file is in the page cache.
#[derive(Clone, Copy, Debug, PartialEq, Eq, Structural)]
pub struct Residency {
    /// Pages that are resident.
    pub resident: u64,
    /// Pages that the file has.
    pub pages: u64,
    /// Share of the pages that are resident, in percent, rounded down.
    pub percent: u64,
}

/// How the work on one file ended.
#[derive(Clone, Copy, Debug, PartialEq, Eq, Structural)]
pub enum Outcome {
    /// Every call succeeded.
    Completed,
    /// Every call of a probe succeeded.
    Probed(Residency),
    /// The given call failed, and the work on the file was given up.
    Failed(Call),
}

/// What the caller does next for one file.
#[derive(Clone, Copy, Debug, PartialEq, Eq, Structural)]
pub enum Step {
    /// Perform this call and report its reply.
    Perform(Call),
    /// Nothing is left to do for the file.
    Finished(Outcome),
}

/// Number of pages that a file of `size` bytes has.
pub open spec fn page_count(size: int) -> int {
    (size + PAGE_SIZE - 1) / (PAGE_SIZE as int)
}

/// Number of entries of a residency vector whose lowest bit is set.
pub open spec fn resident_count(pages: Seq<u8>) -> int
    decreases pages.len(),
{
    if pages.len() == 0 {
        0
    } else {
        resident_count(pages.drop_last()) + if pages.last() & 1 == 1 {
            1int
        } else {
            0int
        }
    }
}

/// Share of `resident` in `pages`, in percent, rounded down; 0 for a file
/// without pages.
pub open spec fn percentage(resident: int, pages: int) -> int {
    if pages == 0 {
        0
    } else {
        resident * 100 / pages
    }
}

/// The residency that a residency vector shows.
pub open spec fn residency_of(pages: Seq<u8>) -> Residency {
    Residency {
        resident: resident_count(pages) as u64,
        pages: pages.len() as u64,
        percent: percentage(resident_count(pages), pages.len() as int) as u64,
    }
}

/// No more pages are resident than there are.
pub proof fn lemma_resident_count(pages: Seq<u8>)
    ensures
        0 <= resident_count(pages) <= pages.len(),
    decreases pages.len(),
{
    if pages.len() > 0 {
        lemma_resident_count(pages.drop_last());
    }
}

/// A percentage lies between 0 and 100.
pub proof fn lemma_percentage(resident: int, pages: int)
    requires
        0 <= resident <= pages,
    ensures
        0 <= percentage(resident, pages) <= 100,
        pages > 0 && resident == pages ==> percentage(resident, pages) == 100,
        resident == 0 ==> percentage(resident, pages) == 0,
{
    if pages > 0 {
        assert(0 <= resident * 100 / pages <= 100) by (nonlinear_arith)
            requires
                0 <= resident <= pages,
                pages > 0,
        ;
        assert(pages * 100 / pages == 100) by (nonlinear_arith)
            requires
                pages > 0,
        ;
    }
}

/// Number of pages of a file of `size` bytes.
pub fn pages_of(size: u64) -> (n: u64)
    ensures
        n == page_count(size as int),
        (n == 0) == (size == 0),
{
    if size % PAGE_SIZE == 0 {
        size / PAGE_SIZE
    } else {
        size / PAGE_SIZE + 1
    }
}

/// Counts the resident pages of a residency vector.
pub fn count_resident(pages: &[u8]) -> (n: usize)
    ensures
        n == resident_count(pages@),
{
    let mut n: usize = 0;
    let mut i: usize = 0;
    assert(pages@.take(0) =~= Seq::<u8>::empty());
    while i < pages.len()
        invariant
            i <= pages.len(),
            n == resident_count(pages@.take(i as int)),
            n <= i,
        decreases pages.len() - i,
    {
        assert(pages@.take(i + 1).drop_last() =~= pages@.take(i as int));
        if pages[i] & 1 == 1 {
            n += 1;
        }
        i += 1;
    }
    assert(pages@.take(i as int) =~= pages@);
    n
}

impl Residency {
    /// The residency of a file without pages.
    pub fn none() -> (r: Residency)
        ensures
            r == residency_of(Seq::<u8>::empty()),
            r == (Residency { resident: 0, pages: 0, percent: 0 }),
    {
        Residency { resident: 0, pages: 0, percent: 0 }
    }

    /// Reads a residency vector: one byte per page, lowest bit set for a
    /// resident page.
    pub fn of(pages: &[u8]) -> (r: Residency)
        ensures
            r == residency_of(pages@),
            r.resident <= r.pages,
            r.percent <= 100,
    {
        let resident = count_resident(pages);
        let total = pages.len();
        proof {
            lemma_resident_count(pages@);
            lemma_percentage(resident as int, total as int);
        }
        if total == 0 {
            Residency { resident: 0, pages: 0, percent: 0 }
        } else {
            let percent = (resident as u128 * 100 / total as u128) as u64;
            Residency { resident: resident as u64, pages: total as u64, percent }
        }
    }
}

/// The work on one file: which call is awaited, and what the file still holds.
#[derive(Clone, Copy, Debug, PartialEq, Eq, Structural)]
pub struct FileTask {
    /// What is done to the file.
    pub op: Operation,
    /// The call whose reply is awaited; `None` once the work has ended.
    pub pending: Option<Call>,
    /// The descriptor is open.
    pub open: bool,
    /// The mapping is in place.
    pub mapped: bool,
    /// The file's size, once known.
    pub size: u64,
    /// The first call that failed.
    pub failed: Option<Call>,
    /// What a probe has found.
    pub residency: Residency,
}

/// The call that follows `call` while nothing has failed.
///
/// A touch ends when the size is known. A probe of an empty file ends there
/// too: it has no page to ask about, and is reported with no page resident.
/// A warm-up and a pin map the file whatever its size, and leave it to the
/// system to refuse a mapping of nothing.
pub open spec fn successor(op: Operation, size: u64, call: Call) -> Option<Call> {
    match call {
        Call::Open => Some(
            if op == Operation::Warm || op == Operation::Pin {
                Call::ReadAhead { len: MAX_READAHEAD }
            } else {
                Call::Stat
            },
        ),
        Call::ReadAhead { .. } => Some(Call::Stat),
        Call::Stat => Some(
            if op == Operation::Touch || (op == Operation::Probe && size == 0) {
                Call::Close
            } else {
                Call::MapFile { len: size, readable: op != Operation::Probe }
            },
        ),
        Call::MapFile { .. } => Some(
            match op {
                Operation::Warm => Call::Advise { len: size },
                Operation::Pin => Call::Lock { len: size },
                Operation::Probe => Call::Residency { len: size },
                Operation::Touch => Call::Unmap { len: size },
            },
        ),
        Call::Advise { .. } | Call::Residency { .. } => Some(Call::Unmap { len: size }),
        Call::Lock { .. } | Call::Unmap { .. } => Some(Call::Close),
        Call::Close => None,
    }
}

/// The call that gives back what the file still holds: the mapping first, then
/// the descriptor.
pub open spec fn release(open: bool, mapped: bool, size: u64) -> Option<Call> {
    if mapped {
        Some(Call::Unmap { len: size })
    } else if open {
        Some(Call::Close)
    } else {
        None
    }
}

/// The reply says that the call succeeded, and carries what the call asks for.
/// A residency vector must have one entry for each page of the file.
pub open spec fn accepted(call: Call, reply: Reply, size: u64) -> bool {
    match call {
        Call::Stat => reply is Size,
        Call::Residency { .. } => reply is Pages && reply->Pages_0.len() == page_count(
            size as int,
        ),
        _ => reply is Done,
    }
}

/// How far a call stands from the end of an undisturbed run.
pub open spec fn rank(call: Call) -> nat {
    match call {
        Call::Open => 7,
        Call::ReadAhead { .. } => 6,
        Call::Stat => 5,
        Call::MapFile { .. } => 4,
        Call::Advise { .. } | Call::Lock { .. } | Call::Residency { .. } => 3,
        Call::Unmap { .. } => 2,
        Call::Close => 1,
    }
}

impl FileTask {
    /// The task before anything was done: the file is to be opened.
    pub open spec fn start(op: Operation) -> FileTask {
        FileTask {
            op,
            pending: Some(Call::Open),
            open: false,
            mapped: false,
            size: 0,
            failed: None,
            residency: Residency { resident: 0, pages: 0, percent: 0 },
        }
    }

    /// The task after `reply` has answered the pending call.
    ///
    /// A reply that the call does not accept is a failure of the call. The
    /// first failure ends the work on the file: from then on only what the
    /// file still holds is given back. Giving back is tried once, whatever the
    /// reply to it.
    pub open spec fn after(self, reply: Reply) -> FileTask {
        match self.pending {
            None => self,
            Some(call) => {
                let ok = accepted(call, reply, self.size);
                let open = match call {
                    Call::Open => ok,
                    Call::Close => false,
                    _ => self.open,
                };
                let mapped = match call {
                    Call::MapFile { .. } => ok,
                    Call::Unmap { .. } => false,
                    _ => self.mapped,
                };
                let size = if call == Call::Stat && ok {
                    reply->Size_0
                } else {
                    self.size
                };
                let failed = if self.failed is Some || ok {
                    self.failed
                } else {
                    Some(call)
                };
                let residency = if call is Residency && ok {
                    residency_of(reply->Pages_0@)
                } else {
                    self.residency
                };
                let pending = if failed is Some {
                    release(open, mapped, size)
                } else {
                    successor(self.op, size, call)
                };
                FileTask { op: self.op, pending, open, mapped, size, failed, residency }
            },
        }
    }

    /// How the work ended, once no call is pending.
    pub open spec fn outcome(self) -> Outcome {
        match self.failed {
            Some(call) => Outcome::Failed(call),
            None => if self.op == Operation::Probe {
                Outcome::Probed(self.residency)
            } else {
                Outcome::Completed
            },
        }
    }

    /// What the caller does next.
    pub open spec fn step(self) -> Step {
        match self.pending {
            Some(call) => Step::Perform(call),
            None => Step::Finished(self.outcome()),
        }
    }

    /// The pending call fits what the file holds and what is done to it.
    ///
    /// While nothing has failed, a call is pending only where the calls before
    /// it have left what it needs: a descriptor for all but `Open`, a mapping
    /// for the calls on mapped memory. After a failure only `Unmap` and `Close`
    /// are pending. At the end the descriptor is closed, and a mapping is left
    /// only by a pin that succeeded.
    pub open spec fn wf(self) -> bool {
        &&& self.residency.resident <= self.residency.pages
        &&& self.residency.percent <= 100
        &&& match self.pending {
            None => !self.open && (self.mapped ==> self.op == Operation::Pin
                && self.failed is None),
            Some(call) => match self.failed {
                Some(_) => match call {
                    Call::Unmap { len } => self.mapped && len == self.size,
                    Call::Close => self.open && !self.mapped,
                    _ => false,
                },
                None => match call {
                    Call::Open => !self.open && !self.mapped,
                    Call::ReadAhead { len } => self.open && !self.mapped && len == MAX_READAHEAD
                        && (self.op == Operation::Warm || self.op == Operation::Pin),
                    Call::Stat => self.open && !self.mapped,
                    Call::MapFile { len, readable } => self.open && !self.mapped && len
                        == self.size && self.op != Operation::Touch && readable == (self.op
                        != Operation::Probe) && (self.op == Operation::Probe ==> self.size > 0),
                    Call::Advise { len } => self.open && self.mapped && len == self.size
                        && self.op == Operation::Warm,
                    Call::Lock { len } => self.open && self.mapped && len == self.size && self.op
                        == Operation::Pin,
                    Call::Residency { len } => self.open && self.mapped && len == self.size
                        && self.op == Operation::Probe,
                    Call::Unmap { len } => self.open && self.mapped && len == self.size && (
                    self.op == Operation::Warm || self.op == Operation::Probe),
                    Call::Close => self.open && (self.mapped <==> self.op == Operation::Pin),
                },
            },
        }
    }

    /// An upper bound on the number of replies that the task still takes.
    pub open spec fn remaining(self) -> nat {
        match self.pending {
            None => 0,
            Some(call) => if self.failed is Some {
                (if self.mapped {
                    1nat
                } else {
                    0nat
                }) + (if self.open {
                    1nat
                } else {
                    0nat
                })
            } else {
                rank(call) + 2
            },
        }
    }

    /// The task after each of `replies` has answered the call that was pending
    /// when it came.
    pub open spec fn after_all(self, replies: Seq<Reply>) -> FileTask
        decreases replies.len(),
    {
        if replies.len() == 0 {
            self
        } else {
            self.after(replies[0]).after_all(replies.drop_first())
        }
    }

    /// A reply leaves a task that fits fitting, and brings it nearer to its end.
    pub proof fn lemma_reply(self, reply: Reply)
        requires
            self.wf(),
        ensures
            self.after(reply).wf(),
            self.after(reply).op == self.op,
            self.pending is Some ==> self.after(reply).remaining() < self.remaining(),
            self.pending is None ==> self.after(reply) == self,
    {
        if self.pending is Some && self.pending->0 is Residency && accepted(
            self.pending->0,
            reply,
            self.size,
        ) {
            lemma_resident_count(reply->Pages_0@);
            lemma_percentage(
                resident_count(reply->Pages_0@),
                reply->Pages_0@.len() as int,
            );
        }
    }

    /// Every task ends: whatever the replies are, a new task has no call
    /// pending once it has taken nine of them, its descriptor is closed, and a
    /// mapping is left only by a pin none of whose calls failed.
    pub proof fn lemma_task_ends(self, replies: Seq<Reply>)
        requires
            self.wf(),
            replies.len() >= self.remaining(),
        ensures
            self.after_all(replies).wf(),
            self.after_all(replies).pending is None,
            !self.after_all(replies).open,
            self.after_all(replies).mapped ==> self.op == Operation::Pin && self.after_all(
                replies,
            ).failed is None,
        decreases replies.len(),
    {
        if replies.len() > 0 {
            self.lemma_reply(replies[0]);
            self.after(replies[0]).lemma_task_ends(replies.drop_first());
        }
    }

    /// A failure is final: the first call that fails stays the one that is
    /// reported, and after it nothing is asked for but to unmap and to close.
    pub proof fn lemma_failure_is_final(self, reply: Reply)
        requires
            self.wf(),
            self.pending is Some,
            self.failed is Some || !accepted(self.pending->0, reply, self.size),
        ensures
            self.after(reply).failed == if self.failed is Some {
                self.failed
            } else {
                self.pending
            },
            match self.after(reply).pending {
                Some(call) => call is Unmap || call is Close,
                None => self.after(reply).outcome() is Failed,
            },
    {
    }

    /// Begins the work on a file: the first call is `Open`.
    pub fn new(op: Operation) -> (task: FileTask)
        ensures
            task == FileTask::start(op),
            task.wf(),
    {
        FileTask {
            op,
            pending: Some(Call::Open),
            open: false,
            mapped: false,
            size: 0,
            failed: None,
            residency: Residency::none(),
        }
    }

    /// What the caller does next: the pending call, or nothing more.
    pub fn current(&self) -> (step: Step)
        ensures
            step == self.step(),
    {
        match self.pending {
            Some(call) => Step::Perform(call),
            None => Step::Finished(
                match self.failed {
                    Some(call) => Outcome::Failed(call),
                    None => if self.op == Operation::Probe {
                        Outcome::Probed(self.residency)
                    } else {
                        Outcome::Completed
                    },
                },
            ),
        }
    }

    /// Takes the reply to the pending call and says what comes next.
    ///
    /// A task that fits stays fitting, and each reply brings it nearer to its
    /// end: no sequence of replies keeps a file busy for more than nine calls.
    pub fn advance(&mut self, reply: &Reply) -> (step: Step)
        ensures
            *final(self) == old(self).after(*reply),
            step == final(self).step(),
            old(self).wf() ==> final(self).wf(),
            old(self).wf() && old(self).pending is Some ==> final(self).remaining() < old(self).remaining(),
    {
        let call = match self.pending {
            None => {
                return self.current();
            },
            Some(call) => call,
        };
        let ok = accepts(call, reply, self.size);
        match call {
            Call::Open => {
                self.open = ok;
            },
            Call::Close => {
                self.open = false;
            },
            Call::MapFile { .. } => {
                self.mapped = ok;
            },
            Call::Unmap { .. } => {
                self.mapped = false;
            },
            Call::Stat => {
                if let Reply::Size(n) = reply {
                    self.size = *n;
                }
            },
            Call::Residency { .. } => {
                if ok {
                    if let Reply::Pages(pages) = reply {
                        self.residency = Residency::of(pages.as_slice());
                    }
                }
            },
            _ => {},
        }
        if self.failed.is_none() && !ok {
            self.failed = Some(call);
        }
        self.pending =
        if self.failed.is_some() {
            release_call(self.open, self.mapped, self.size)
        } else {
            successor_call(self.op, self.size, call)
        };
        self.current()
    }
}

/// Tells whether the reply says that the call succeeded.
pub fn accepts(call: Call, reply: &Reply, size: u64) -> (ok: bool)
    ensures
        ok == accepted(call, *reply, size),
{
    match call {
        Call::Stat => match reply {
            Reply::Size(_) => true,
            _ => false,
        },
        Call::Residency { .. } => match reply {
            Reply::Pages(pages) => pages.len() as u64 == pages_of(size),
            _ => false,
        },
        _ => match reply {
            Reply::Done => true,
            _ => false,
        },
    }
}

/// The call that follows `call` while nothing has failed.
pub fn successor_call(op: Operation, size: u64, call: Call) -> (next: Option<Call>)
    ensures
        next == successor(op, size, call),
{
    match call {
        Call::Open => Some(
            match op {
                Operation::Warm | Operation::Pin => Call::ReadAhead { len: MAX_READAHEAD },
                _ => Call::Stat,
            },
        ),
        Call::ReadAhead { .. } => Some(Call::Stat),
        Call::Stat => Some(
            match op {
                Operation::Touch => Call::Close,
                Operation::Probe => if size == 0 {
                    Call::Close
                } else {
                    Call::MapFile { len: size, readable: false }
                },
                _ => Call::MapFile { len: size, readable: true },
            },
        ),
        Call::MapFile { .. } => Some(
            match op {
                Operation::Warm => Call::Advise { len: size },
                Operation::Pin => Call::Lock { len: size },
                Operation::Probe => Call::Residency { len: size },
                Operation::Touch => Call::Unmap { len: size },
            },
        ),
        Call::Advise { .. } | Call::Residency { .. } => Some(Call::Unmap { len: size }),
        Call::Lock { .. } | Call::Unmap { .. } => Some(Call::Close),
        Call::Close => None,
    }
}

/// The call that gives back what the file still holds.
pub fn release_call(open: bool, mapped: bool, size: u64) -> (next: Option<Call>)
    ensures
        next == release(open, mapped, size),
{
    if mapped {
        Some(Call::Unmap { len: size })
    } else if open {
        Some(Call::Close)
    } else {
        None
    }
}

/// What the caller does next for a batch.
#[derive(Clone, Copy, Debug, PartialEq, Eq, Structural)]
pub enum BatchStep {
    /// Perform this call on the file with this index and report its reply.
    Perform { file: usize, call: Call },
    /// Every file has its outcome.
    Finished,
}

/// The work on a list of files, one file after the other.
///
/// The files are taken in the order of the list. The file at work is the one
/// whose index is the number of outcomes so far.
#[derive(Debug)]
pub struct Batch {
    /// What is done to each file.
    pub op: Operation,
    /// The files, in the order in which they are taken.
    pub files: Vec<String>,
    /// How much the caller wants to be told.
    pub verbosity: u8,
    /// The work on the file at hand.
    pub task: FileTask,
    /// The outcomes of the files that are done, in the order of the list.
    pub outcomes: Vec<Outcome>,
}

/// A batch as a value: how many files it has, the work on the file at hand,
/// and the outcomes so far.
pub struct BatchState {
    pub op: Operation,
    pub files: nat,
    pub task: FileTask,
    pub outcomes: Seq<Outcome>,
}

impl BatchState {
    /// Every file has its outcome.
    pub open spec fn finished(self) -> bool {
        self.outcomes.len() >= self.files
    }

    /// The batch before anything was done.
    pub open spec fn start(op: Operation, files: nat) -> BatchState {
        BatchState { op, files, task: FileTask::start(op), outcomes: Seq::empty() }
    }

    /// What the caller does next.
    pub open spec fn step(self) -> BatchStep {
        match self.task.pending {
            Some(call) if !self.finished() => BatchStep::Perform {
                file: self.outcomes.len() as usize,
                call,
            },
            _ => BatchStep::Finished,
        }
    }

    /// The batch after `reply` has answered the pending call.
    ///
    /// The reply goes to the task of the file at hand. When that task ends,
    /// however it ends, its outcome is recorded and the next file begins with
    /// a new task. A finished batch stays as it is.
    pub open spec fn after(self, reply: Reply) -> BatchState {
        let task = self.task.after(reply);
        if self.finished() {
            self
        } else if task.pending is Some {
            BatchState { task, ..self }
        } else {
            BatchState {
                task: FileTask::start(self.op),
                outcomes: self.outcomes.push(task.outcome()),
                ..self
            }
        }
    }

    /// The batch after each of `replies` has answered the call that was
    /// pending when it came.
    pub open spec fn after_all(self, replies: Seq<Reply>) -> BatchState
        decreases replies.len(),
    {
        if replies.len() == 0 {
            self
        } else {
            self.after(replies[0]).after_all(replies.drop_first())
        }
    }

    /// The task at hand fits, belongs to the batch's operation and awaits a
    /// reply; there are no more outcomes than files.
    pub open spec fn wf(self) -> bool {
        &&& self.outcomes.len() <= self.files
        &&& self.task.wf()
        &&& self.task.op == self.op
        &&& self.task.pending is Some
    }

    /// An upper bound on the number of replies that the batch still takes.
    pub open spec fn remaining(self) -> nat {
        if self.finished() {
            0
        } else {
            ((self.files - self.outcomes.len()) * 10 + self.task.remaining()) as nat
        }
    }

    /// A reply leaves a batch that fits fitting, with the same files, and
    /// brings it nearer to its end. No outcome is taken back.
    pub proof fn lemma_reply(self, reply: Reply)
        requires
            self.wf(),
        ensures
            self.after(reply).wf(),
            self.after(reply).files == self.files,
            self.after(reply).op == self.op,
            self.outcomes.is_prefix_of(self.after(reply).outcomes),
            !self.finished() ==> self.after(reply).remaining() < self.remaining(),
    {
        self.task.lemma_reply(reply);
    }

    /// No file stops a batch: whatever the replies are, and whichever calls
    /// fail, the batch is finished after ten replies for each file at most,
    /// and then every file has its outcome.
    pub proof fn lemma_batch_ends(self, replies: Seq<Reply>)
        requires
            self.wf(),
            replies.len() >= self.remaining(),
        ensures
            self.after_all(replies).finished(),
            self.after_all(replies).outcomes.len() == self.files,
            self.outcomes.is_prefix_of(self.after_all(replies).outcomes),
        decreases replies.len(),
    {
        if replies.len() > 0 {
            self.lemma_reply(replies[0]);
            let next = self.after(replies[0]);
            next.lemma_batch_ends(replies.drop_first());
            let last = next.after_all(replies.drop_first());
            assert(self.outcomes.is_prefix_of(last.outcomes)) by {
                assert(last.outcomes.subrange(0, self.outcomes.len() as int)
                    =~= next.outcomes.subrange(0, next.outcomes.len() as int).subrange(
                    0,
                    self.outcomes.len() as int,
                ));
            }
        }
    }
}

impl View for Batch {
    type V = BatchState;

    open spec fn view(&self) -> BatchState {
        BatchState {
            op: self.op,
            files: self.files@.len(),
            task: self.task,
            outcomes: self.outcomes@,
        }
    }
}

impl Batch {
    /// A batch over `files`; the first call is `Open` on the first file.
    pub fn new(op: Operation, files: Vec<String>, verbosity: u8) -> (batch: Batch)
        ensures
            batch@ == BatchState::start(op, files@.len()),
            batch.files == files,
            batch.verbosity == verbosity,
            batch@.wf(),
    {
        Batch { op, files, verbosity, task: FileTask::new(op), outcomes: Vec::new() }
    }

    /// What the caller does next: a call on the file at hand, or nothing more.
    pub fn current(&self) -> (step: BatchStep)
        ensures
            step == self@.step(),
    {
        if self.outcomes.len() >= self.files.len() {
            return BatchStep::Finished;
        }
        match self.task.pending {
            Some(call) => BatchStep::Perform { file: self.outcomes.len(), call },
            None => BatchStep::Finished,
        }
    }

    /// Tells whether the caller is to name each file as its work begins: always
    /// for a touch and a warm-up, for a pin only above verbosity 1, never for a
    /// probe, which reports each file when it is done.
    pub fn announces(&self) -> (b: bool)
        ensures
            b == match self.op {
                Operation::Touch | Operation::Warm => true,
                Operation::Pin => self.verbosity > 1,
                Operation::Probe => false,
            },
    {
        match self.op {
            Operation::Touch | Operation::Warm => true,
            Operation::Pin => self.verbosity > 1,
            Operation::Probe => false,
        }
    }

    /// Takes the reply to the pending call and says what comes next. The files
    /// stay the same: a batch that fits stays fitting.
    pub fn advance(&mut self, reply: &Reply) -> (step: BatchStep)
        ensures
            final(self)@ == old(self)@.after(*reply),
            final(self).files == old(self).files,
            final(self).verbosity == old(self).verbosity,
            step == final(self)@.step(),
            old(self)@.wf() ==> final(self)@.wf(),
    {
        if self.outcomes.len() >= self.files.len() {
            return BatchStep::Finished;
        }
        match self.task.advance(reply) {
            Step::Perform(_) => {},
            Step::Finished(outcome) => {
                self.outcomes.push(outcome);
                self.task = FileTask::new(self.op);
            },
        }
        self.current()
    }
}

/// The batch that looks each file up and reads its metadata.
pub fn prime_dentry_cache(files: Vec<String>) -> (batch: Batch)
    ensures
        batch@ == BatchState::start(Operation::Touch, files@.len()),
        batch.files == files,
        batch.verbosity == 0,
        batch@.wf(),
{
    Batch::new(Operation::Touch, files, 0)
}

/// The batch that asks the system to bring each file into the page cache.
pub fn prefault_file_mappings(files: Vec<String>) -> (batch: Batch)
    ensures
        batch@ == BatchState::start(Operation::Warm, files@.len()),
        batch.files == files,
        batch.verbosity == 0,
        batch@.wf(),
{
    Batch::new(Operation::Warm, files, 0)
}

/// The batch that locks each file in memory.
pub fn mlock_file_mappings(files: Vec<String>, verbosity: u8) -> (batch: Batch)
    ensures
        batch@ == BatchState::start(Operation::Pin, files@.len()),
        batch.files == files,
        batch.verbosity == verbosity,
        batch@.wf(),
{
    Batch::new(Operation::Pin, files, verbosity)
}

/// The batch that counts the resident pages of each file.
pub fn print_fincore(files: Vec<String>) -> (batch: Batch)
    ensures
        batch@ == BatchState::start(Operation::Probe, files@.len()),
        batch.files == files,
        batch.verbosity == 0,
        batch@.wf(),
{
    Batch::new(Operation::Probe, files, 0)
}

/// The name of the system call that a call stands for.
pub open spec fn call_name(call: Call) -> Seq<char> {
    match call {
        Call::Open => "open"@,
        Call::ReadAhead { .. } => "readahead"@,
        Call::Stat => "fstat"@,
        Call::MapFile { .. } => "mmap"@,
        Call::Advise { .. } => "madvise"@,
        Call::Lock { .. } => "mlock"@,
        Call::Residency { .. } => "mincore"@,
        Call::Unmap { .. } => "munmap"@,
        Call::Close => "close"@,
    }
}

/// The line that reports a probed file: the percentage in a field of three
/// characters and `%`, the number of resident pages in a field of five, the
/// path, and the file's size in brackets.
pub open spec fn fincore_text(r: Residency, path: Seq<char>, size: Seq<char>) -> Seq<char> {
    padded(digits(r.percent as int, 10), 3) + "% "@ + padded(digits(r.resident as int, 10), 5)
        + " "@ + path + " ("@ + size + ")"@
}

impl Call {
    /// The name of the system call, for a message about it.
    pub fn name(&self) -> (name: &'static str)
        ensures
            name@ == call_name(*self),
    {
        match self {
            Call::Open => "open",
            Call::ReadAhead { .. } => "readahead",
            Call::Stat => "fstat",
            Call::MapFile { .. } => "mmap",
            Call::Advise { .. } => "madvise",
            Call::Lock { .. } => "mlock",
            Call::Residency { .. } => "mincore",
            Call::Unmap { .. } => "munmap",
            Call::Close => "close",
        }
    }
}

impl Residency {
    /// The line that reports the file `path`, whose size reads `size`.
    pub fn line(&self, path: &str, size: &str) -> (text: String)
        ensures
            text@ == fincore_text(*self, path@, size@),
    {
        let mut out: Vec<char> = Vec::new();
        let mut number: Vec<char> = Vec::new();
        push_digits(self.percent, 10, &mut number);
        append_padded(&mut out, number.as_slice(), 3);
        append_str(&mut out, "% ");
        let mut count: Vec<char> = Vec::new();
        push_digits(self.resident, 10, &mut count);
        append_padded(&mut out, count.as_slice(), 5);
        append_str(&mut out, " ");
        append_str(&mut out, path);
        append_str(&mut out, " (");
        append_str(&mut out, size);
        append_str(&mut out, ")");
        assert(out@ =~= fincore_text(*self, path@, size@));
        string_of(out.as_slice())
    }
}

/// What a process does after it has pinned its files.
#[derive(Clone, Copy, Debug, PartialEq, Eq, Structural)]
pub enum Wait {
    /// Sleep for this many milliseconds, then ask again.
    Sleep(u64),
    /// Leave; the pinned files are given up with the process.
    Exit,
}

/// How long a process that has pinned files stays: the pages are locked only
/// as long as it lives.
///
/// At a terminal it sleeps a second at a time and leaves once it was told to
/// stop. Without a terminal nobody can tell it, and it sleeps for as long as a
/// sleep can last. `slept` says that it has slept before, `running` that it
/// was not told to stop.
pub fn resident_wait(interactive: bool, slept: bool, running: bool) -> (wait: Wait)
    ensures
        wait == if interactive {
            if !slept || running {
                Wait::Sleep(1000)
            } else {
                Wait::Exit
            }
        } else {
            if !slept {
                Wait::Sleep(u64::MAX)
            } else {
                Wait::Exit
            }
        },
{
    if interactive {
        if !slept || running {
            Wait::Sleep(1000)
        } else {
            Wait::Exit
        }
    } else if !slept {
        Wait::Sleep(u64::MAX)
    } else {
        Wait::Exit
    }
}

} // verus!
