//! The bookkeeping of a word count that a manager spreads over a pool of
//! worker actors: which workers are free, which lines are left to count, and
//! the sum of what came back.

use crate::actor_ref::ActorRef;
use vstd::prelude::*;
use vstd::string::StrSliceExecFns;

verus! {

broadcast use vstd::string::group_string_axioms;

/// The number of spaces in `line`.
pub open spec fn spaces(line: Seq<char>) -> nat
    decreases line.len(),
{
    if line.len() == 0 {
        0
    } else {
        spaces(line.drop_last()) + if line.last() == ' ' {
            1nat
        } else {
            0nat
        }
    }
}

/// The number of words in `line`: of the pieces between its spaces, the
/// empty ones too.
pub open spec fn words_in(line: Seq<char>) -> nat {
    1 + spaces(line)
}

/// Counts the words of `line` as a 32-bit number. A count beyond that range
/// wraps round.
pub fn count_words(line: &str) -> (words: i32)
    ensures
        words == words_in(line@) as i32,
        words_in(line@) <= i32::MAX ==> words == words_in(line@),
{
    let total = line.unicode_len();
    let mut found: usize = 0;
    for c in it: line.chars()
        invariant
            it.seq() == line@,
            total == line@.len(),
            found == spaces(line@.take(it.index() as int)),
            found <= it.index() <= total,
    {
        proof {
            assert(line@.take(it.index() + 1).drop_last() =~= line@.take(it.index() as int));
        }
        if c == ' ' {
            found = found + 1;
        }
    }
    assert(line@.take(total as int) =~= line@);
    let all: u128 = found as u128 + 1;
    if all <= 0x7fff_ffff {
        all as i32
    } else {
        #[verifier::truncate]
        (all as i32)
    }
}

/// The number of free workers among the first `n` of `workers`.
pub open spec fn free_before<A>(workers: Seq<(bool, ActorRef<A>)>, n: int) -> nat
    decreases n,
{
    if n <= 0 || n > workers.len() {
        0
    } else {
        free_before(workers, n - 1) + if workers[n - 1].0 {
            1nat
        } else {
            0nat
        }
    }
}

/// The number of free workers among `workers`.
pub open spec fn free_count<A>(workers: Seq<(bool, ActorRef<A>)>) -> nat {
    free_before(workers, workers.len() as int)
}

/// No more workers are free among the first `n` than there are, or than are
/// free among the first `m` if `n <= m`.
pub proof fn lemma_free_before_grows<A>(workers: Seq<(bool, ActorRef<A>)>, n: int, m: int)
    requires
        0 <= n <= m <= workers.len(),
    ensures
        free_before(workers, n) <= free_before(workers, m),
        free_before(workers, n) <= n,
    decreases m,
{
    if n < m {
        lemma_free_before_grows(workers, n, m - 1);
    } else if n > 0 {
        lemma_free_before_grows(workers, n - 1, n - 1);
    }
}

/// What the manager of a word count keeps.
pub struct ManagerState<A> {
    /// The workers, each with a flag that says whether it is free.
    pub workers: Vec<(bool, ActorRef<A>)>,
    /// The words counted so far.
    pub count: i32,
    /// The lines that no worker was given yet.
    pub to_process: Vec<String>,
}

impl<A> ManagerState<A> {
    /// A manager without workers or lines, and with a count of zero.
    pub fn new() -> (state: ManagerState<A>)
        ensures
            state.workers@.len() == 0,
            state.count == 0,
            state.to_process@.len() == 0,
    {
        ManagerState { workers: Vec::new(), count: 0, to_process: Vec::new() }
    }

    /// Takes `lines` for the lines that are left to count, in place of any
    /// that were left before.
    pub fn set_lines(&mut self, lines: Vec<String>)
        ensures
            final(self).to_process@ == lines@,
            final(self).workers@ == old(self).workers@,
            final(self).count == old(self).count,
    {
        self.to_process = lines;
    }

    /// Adds `worker` to the pool as its last worker, free.
    pub fn add_worker(&mut self, worker: ActorRef<A>)
        ensures
            final(self).workers@ == old(self).workers@.push((true, worker)),
            final(self).to_process@ == old(self).to_process@,
            final(self).count == old(self).count,
    {
        self.workers.push((true, worker));
    }

    /// Whether `assign` can hand every free worker a line: whether no line is
    /// left at all, or at least as many as there are free workers.
    pub fn can_assign(&self) -> (can: bool)
        ensures
            can == (self.to_process@.len() == 0 || free_count(self.workers@)
                <= self.to_process@.len()),
    {
        if self.to_process.len() == 0 {
            return true;
        }
        let mut free: usize = 0;
        let mut i: usize = 0;
        while i < self.workers.len()
            invariant
                i <= self.workers@.len(),
                free == free_before(self.workers@, i as int),
                free <= i,
            decreases self.workers@.len() - i,
        {
            if self.workers[i].0 {
                free = free + 1;
            }
            i = i + 1;
        }
        free <= self.to_process.len()
    }

    /// Gives every free worker a line, if any line is left: the free workers
    /// in their order take the lines from the last one backwards, and are
    /// busy from then on. The result lists each of those workers with its
    /// line, in the workers' order.
    pub fn assign(&mut self) -> (sends: Vec<(ActorRef<A>, String)>)
        requires
            old(self).to_process@.len() == 0 || free_count(old(self).workers@) <= old(
                self,
            ).to_process@.len(),
        ensures
            final(self).count == old(self).count,
            final(self).workers@.len() == old(self).workers@.len(),
            old(self).to_process@.len() == 0 ==> {
                &&& sends@.len() == 0
                &&& final(self).workers@ == old(self).workers@
                &&& final(self).to_process@ == old(self).to_process@
            },
            old(self).to_process@.len() > 0 ==> {
                &&& sends@.len() == free_count(old(self).workers@)
                &&& final(self).to_process@ == old(self).to_process@.take(
                    old(self).to_process@.len() - sends@.len(),
                )
                &&& forall|j: int|
                    0 <= j < old(self).workers@.len() ==> #[trigger] final(self).workers@[j] == (
                        false,
                        old(self).workers@[j].1,
                    )
                &&& forall|j: int|
                    0 <= j < old(self).workers@.len() && (#[trigger] old(self).workers@[j]).0 ==> {
                        let turn = free_before(old(self).workers@, j) as int;
                        sends@[turn] == (
                            old(self).workers@[j].1,
                            old(self).to_process@[old(self).to_process@.len() - 1 - turn],
                        )
                    }
            },
    {
        let mut sends: Vec<(ActorRef<A>, String)> = Vec::new();
        if self.to_process.len() == 0 {
            return sends;
        }
        let ghost workers = self.workers@;
        let ghost lines = self.to_process@;
        let mut i: usize = 0;
        while i < self.workers.len()
            invariant
                i <= workers.len(),
                self.workers@.len() == workers.len(),
                self.count == old(self).count,
                workers == old(self).workers@,
                lines == old(self).to_process@,
                free_count(workers) <= lines.len(),
                sends@.len() == free_before(workers, i as int),
                self.to_process@ == lines.take(lines.len() - sends@.len()),
                forall|j: int| 0 <= j < i ==> #[trigger] self.workers@[j] == (false, workers[j].1),
                forall|j: int| i <= j < workers.len() ==> #[trigger] self.workers@[j] == workers[j],
                forall|j: int|
                    0 <= j < i && (#[trigger] workers[j]).0 ==> {
                        let turn = free_before(workers, j) as int;
                        sends@[turn] == (workers[j].1, lines[lines.len() - 1 - turn])
                    },
            decreases workers.len() - i,
        {
            proof {
                lemma_free_before_grows(workers, i as int + 1, workers.len() as int);
            }
            if self.workers[i].0 {
                let ghost turn = sends@.len() as int;
                let worker = self.workers[i].1.clone();
                let line = self.to_process.pop().unwrap();
                assert(line == lines[lines.len() - 1 - turn]);
                assert(self.to_process@ =~= lines.take(lines.len() - (turn + 1)));
                sends.push((worker, line));
                assert forall|j: int| 0 <= j < i && (#[trigger] workers[j]).0 implies {
                    let t = free_before(workers, j) as int;
                    sends@[t] == (workers[j].1, lines[lines.len() - 1 - t])
                } by {
                    lemma_free_before_grows(workers, j + 1, i as int);
                }
                self.workers[i].0 = false;
            }
            i = i + 1;
        }
        sends
    }

    /// Adds `count` to the words counted so far, and marks as free every
    /// worker that is the actor `sender`.
    pub fn record_result(&mut self, count: i32, sender: &Option<ActorRef<A>>)
        requires
            i32::MIN <= old(self).count + count <= i32::MAX,
        ensures
            final(self).count == old(self).count + count,
            final(self).to_process@ == old(self).to_process@,
            final(self).workers@.len() == old(self).workers@.len(),
            forall|j: int|
                0 <= j < old(self).workers@.len() ==> #[trigger] final(self).workers@[j] == (
                    old(self).workers@[j].0 || (sender is Some && sender->0.pid == old(
                        self,
                    ).workers@[j].1.pid),
                    old(self).workers@[j].1,
                ),
    {
        self.count = self.count + count;
        match sender {
            Some(sender) => {
                let mut i: usize = 0;
                while i < self.workers.len()
                    invariant
                        i <= self.workers@.len(),
                        self.workers@.len() == old(self).workers@.len(),
                        self.count == old(self).count + count,
                        self.to_process@ == old(self).to_process@,
                        forall|j: int|
                            0 <= j < i ==> #[trigger] self.workers@[j] == (
                                old(self).workers@[j].0 || sender.pid == old(
                                    self,
                                ).workers@[j].1.pid,
                                old(self).workers@[j].1,
                            ),
                        forall|j: int|
                            i <= j < self.workers@.len() ==> #[trigger] self.workers@[j] == old(
                                self,
                            ).workers@[j],
                    decreases self.workers@.len() - i,
                {
                    if *sender == self.workers[i].1 {
                        self.workers[i].0 = true;
                    }
                    i = i + 1;
                }
            },
            None => {},
        }
    }

    /// The number of busy workers.
    pub fn get_busy_count(&self) -> (busy: i32)
        requires
            self.workers@.len() <= i32::MAX,
        ensures
            busy == self.workers@.len() - free_count(self.workers@),
    {
        let mut busy: i32 = 0;
        let mut i: usize = 0;
        while i < self.workers.len()
            invariant
                i <= self.workers@.len(),
                self.workers@.len() <= i32::MAX,
                busy == i - free_before(self.workers@, i as int),
                0 <= busy <= i,
            decreases self.workers@.len() - i,
        {
            if !self.workers[i].0 {
                busy = busy + 1;
            }
            i = i + 1;
        }
        busy
    }

    /// The number of lines that no worker was given yet, as a 32-bit number.
    /// A number beyond that range wraps round.
    pub fn get_to_process_count(&self) -> (left: i32)
        ensures
            left == self.to_process@.len() as i32,
            self.to_process@.len() <= i32::MAX ==> left == self.to_process@.len(),
    {
        let left = self.to_process.len();
        if left <= 0x7fff_ffff {
            left as i32
        } else {
            #[verifier::truncate]
            (left as i32)
        }
    }

    /// Whether the count is complete: no line is left and no worker is busy.
    pub fn is_done(&self) -> (done: bool)
        requires
            self.workers@.len() <= i32::MAX,
            self.to_process@.len() <= i32::MAX,
            self.to_process@.len() + self.workers@.len() - free_count(self.workers@) <= i32::MAX,
        ensures
            done == (self.to_process@.len() == 0 && free_count(self.workers@)
                == self.workers@.len()),
    {
        proof {
            lemma_free_before_grows(
                self.workers@,
                self.workers@.len() as int,
                self.workers@.len() as int,
            );
        }
        let busy = self.get_busy_count();
        let to_process = self.get_to_process_count();
        to_process + busy == 0
    }
}

} // verus!
