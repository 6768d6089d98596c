//! The worker pool as a state machine: which worker an operation goes to, and
//! what waits for each worker.
//!
//! Operations go round the live workers in turn. Each worker takes what was
//! routed to it in the order of arrival. A worker that has terminated is not
//! replaced: what waited for it is handed back to the caller to be failed, the
//! workers that are left share the load, and once none is left every
//! submission fails with `PoolExhausted`.

use vstd::prelude::*;
use crate::error::StorageError;
use crate::operation::Operation;

verus! {

/// Number of workers in a pool unless the caller asks for another.
pub const DEFAULT_POOL_SIZE: usize = 3;

/// An operation that waits for its worker.
#[derive(Debug, PartialEq, Eq)]
pub struct Pending {
    pub ticket: u64,
    pub queued_since: u64,
    pub operation: Operation,
}

/// Where a submitted operation went.
#[derive(Debug, PartialEq, Eq, Clone, Copy)]
pub struct Ticket {
    pub id: u64,
    pub worker: usize,
}

/// The state of a pool.
pub struct Pool {
    /// For each worker, whether it still runs.
    pub alive: Seq<bool>,
    /// For each worker, what waits for it, next first.
    pub queues: Seq<Seq<Pending>>,
    /// The worker at which the search for the next live one starts.
    pub cursor: int,
    /// The id that the next ticket gets.
    pub next_ticket: int,
}

/// The `k`-th worker in the round that starts at `cursor`.
pub open spec fn slot(workers: int, cursor: int, k: int) -> int {
    if cursor + k < workers {
        cursor + k
    } else {
        cursor + k - workers
    }
}

/// The first live worker among the `k`-th and later ones of the round that
/// starts at `cursor`.
pub open spec fn first_alive_from(alive: Seq<bool>, cursor: int, k: int) -> Option<int>
    decreases alive.len() - k,
{
    if k < 0 || k >= alive.len() {
        None
    } else if alive[slot(alive.len() as int, cursor, k)] {
        Some(slot(alive.len() as int, cursor, k))
    } else {
        first_alive_from(alive, cursor, k + 1)
    }
}

/// The worker that the next operation goes to: the first live one at or
/// after `cursor`, going round.
pub open spec fn next_worker(alive: Seq<bool>, cursor: int) -> Option<int> {
    first_alive_from(alive, cursor, 0)
}

/// Where the search starts after an operation went to `worker`.
pub open spec fn cursor_after(workers: int, worker: int) -> int {
    if worker + 1 < workers {
        worker + 1
    } else {
        0
    }
}

/// Some operation that waits carries the ticket `ticket`.
pub open spec fn holds_ticket(queues: Seq<Seq<Pending>>, ticket: u64) -> bool {
    exists|w: int, i: int|
        0 <= w < queues.len() && 0 <= i < queues[w].len() && (#[trigger] queues[w][i]).ticket
            == ticket
}

/// The constraints that a pool keeps at all times.
pub open spec fn pool_ok(p: Pool) -> bool {
    &&& p.alive.len() == p.queues.len()
    &&& 0 <= p.cursor
    &&& p.cursor < p.alive.len() || p.cursor == 0
    &&& 0 <= p.next_ticket <= u64::MAX
    &&& forall|w: int| 0 <= w < p.queues.len() && !p.alive[w] ==> (#[trigger] p.queues[w]).len() == 0
    &&& forall|w: int, i: int|
        0 <= w < p.queues.len() && 0 <= i < p.queues[w].len() ==> (#[trigger] p.queues[w][i]).ticket
            < p.next_ticket
    &&& forall|w: int, i: int, v: int, j: int|
        0 <= w < p.queues.len() && 0 <= i < p.queues[w].len() && 0 <= v < p.queues.len() && 0 <= j
            < p.queues[v].len() && (w != v || i != j) ==> (#[trigger] p.queues[w][i]).ticket != (
        #[trigger] p.queues[v][j]).ticket
}

/// The pool: a fixed number of workers and what waits for each.
pub struct Dispatcher {
    alive: Vec<bool>,
    queues: Vec<Vec<Pending>>,
    cursor: usize,
    next_ticket: u64,
}

impl View for Dispatcher {
    type V = Pool;

    closed spec fn view(&self) -> Pool {
        Pool {
            alive: self.alive@,
            queues: Seq::new(self.queues@.len(), |w: int| self.queues@[w]@),
            cursor: self.cursor as int,
            next_ticket: self.next_ticket as int,
        }
    }
}

impl Dispatcher {
    /// The pool keeps its constraints.
    pub open spec fn wf(&self) -> bool {
        pool_ok(self@)
    }

    /// A pool of `workers` live workers with nothing waiting.
    pub fn new(workers: usize) -> (pool: Dispatcher)
        ensures
            pool.wf(),
            pool@.alive == Seq::new(workers as nat, |w: int| true),
            pool@.queues == Seq::new(workers as nat, |w: int| Seq::<Pending>::empty()),
            pool@.cursor == 0,
            pool@.next_ticket == 0,
    {
        let mut alive: Vec<bool> = Vec::new();
        let mut queues: Vec<Vec<Pending>> = Vec::new();
        let mut w: usize = 0;
        while w < workers
            invariant
                w <= workers,
                alive@ == Seq::new(w as nat, |k: int| true),
                queues@.len() == w,
                forall|k: int| 0 <= k < w ==> (#[trigger] queues@[k])@ == Seq::<Pending>::empty(),
            decreases workers - w,
        {
            alive.push(true);
            queues.push(Vec::new());
            assert(alive@ =~= Seq::new((w + 1) as nat, |k: int| true));
            w += 1;
        }
        let pool = Dispatcher { alive, queues, cursor: 0, next_ticket: 0 };
        assert(pool@.queues =~= Seq::new(workers as nat, |w: int| Seq::<Pending>::empty()));
        pool
    }

    /// The worker that the next operation goes to.
    fn pick(&self) -> (worker: Option<usize>)
        requires
            self.wf(),
        ensures
            worker is Some <==> next_worker(self@.alive, self@.cursor) is Some,
            worker is Some ==> worker->Some_0 == next_worker(self@.alive, self@.cursor)->Some_0
                && worker->Some_0 < self@.alive.len() && self@.alive[worker->Some_0 as int],
    {
        let workers = self.alive.len();
        let mut k: usize = 0;
        let mut at: usize = self.cursor;
        while k < workers
            invariant
                k <= workers,
                workers == self.alive@.len(),
                self.wf(),
                k < workers ==> at == slot(workers as int, self.cursor as int, k as int),
                next_worker(self@.alive, self@.cursor) == first_alive_from(
                    self@.alive,
                    self@.cursor,
                    k as int,
                ),
            decreases workers - k,
        {
            if self.alive[at] {
                return Some(at);
            }
            k += 1;
            at = if at + 1 < workers {
                at + 1
            } else {
                0
            };
        }
        None
    }

    /// Routes an operation to the next live worker and queues it there behind
    /// what already waits. Fails with `PoolExhausted`, leaving the pool as it
    /// was, where no worker is alive or no ticket id is left.
    pub fn submit(&mut self, operation: Operation, now: u64) -> (result: Result<
        Ticket,
        StorageError,
    >)
        requires
            old(self).wf(),
        ensures
            final(self).wf(),
            next_worker(old(self)@.alive, old(self)@.cursor) is None || old(self)@.next_ticket
                == u64::MAX ==> result == Err::<Ticket, StorageError>(StorageError::PoolExhausted)
                && final(self)@ == old(self)@,
            next_worker(old(self)@.alive, old(self)@.cursor) is Some && old(self)@.next_ticket
                < u64::MAX ==> {
                let worker = next_worker(old(self)@.alive, old(self)@.cursor)->Some_0;
                &&& result == Ok::<Ticket, StorageError>(
                    Ticket { id: old(self)@.next_ticket as u64, worker: worker as usize },
                )
                &&& final(self)@ == (Pool {
                    alive: old(self)@.alive,
                    queues: old(self)@.queues.update(
                        worker,
                        old(self)@.queues[worker].push(
                            Pending {
                                ticket: old(self)@.next_ticket as u64,
                                queued_since: now,
                                operation,
                            },
                        ),
                    ),
                    cursor: cursor_after(old(self)@.alive.len() as int, worker),
                    next_ticket: old(self)@.next_ticket + 1,
                })
            },
    {
        if self.next_ticket == u64::MAX {
            return Err(StorageError::PoolExhausted);
        }
        match self.pick() {
            None => Err(StorageError::PoolExhausted),
            Some(worker) => {
                let id = self.next_ticket;
                let ghost before = self@;
                let workers = self.alive.len();
                assert(worker < workers);
                let next = if worker + 1 < workers {
                    worker + 1
                } else {
                    0
                };
                self.queues[worker].push(Pending { ticket: id, queued_since: now, operation });
                self.next_ticket = id + 1;
                self.cursor = next;
                proof {
                    let after = self@;
                    assert(after.queues =~= before.queues.update(
                        worker as int,
                        before.queues[worker as int].push(
                            Pending { ticket: id, queued_since: now, operation },
                        ),
                    ));
                    assert forall|w: int, i: int|
                        0 <= w < after.queues.len() && 0 <= i < after.queues[w].len() implies (
                    #[trigger] after.queues[w][i]).ticket < after.next_ticket by {
                        if w != worker || i < before.queues[w].len() {
                            assert(after.queues[w][i] == before.queues[w][i]);
                        }
                    }
                    assert forall|w: int, i: int, v: int, j: int|
                        0 <= w < after.queues.len() && 0 <= i < after.queues[w].len() && 0 <= v
                            < after.queues.len() && 0 <= j < after.queues[v].len() && (w != v || i
                            != j) implies (#[trigger] after.queues[w][i]).ticket != (
                    #[trigger] after.queues[v][j]).ticket by {
                        if w != worker || i < before.queues[w].len() {
                            assert(after.queues[w][i] == before.queues[w][i]);
                        }
                        if v != worker || j < before.queues[v].len() {
                            assert(after.queues[v][j] == before.queues[v][j]);
                        }
                    }
                }
                Ok(Ticket { id, worker })
            },
        }
    }

    /// Hands `worker` the operation that has waited for it longest, if any.
    pub fn next_operation(&mut self, worker: usize) -> (next: Option<Pending>)
        requires
            old(self).wf(),
        ensures
            final(self).wf(),
            worker < old(self)@.queues.len() && old(self)@.queues[worker as int].len() > 0
                ==> next == Some(old(self)@.queues[worker as int][0]) && final(self)@ == (Pool {
                queues: old(self)@.queues.update(
                    worker as int,
                    old(self)@.queues[worker as int].drop_first(),
                ),
                ..old(self)@
            }),
            worker >= old(self)@.queues.len() || old(self)@.queues[worker as int].len() == 0
                ==> next is None && final(self)@ == old(self)@,
    {
        if worker >= self.queues.len() {
            return None;
        }
        if self.queues[worker].len() == 0 {
            return None;
        }
        let ghost before = self@;
        let next = self.queues[worker].remove(0);
        proof {
            let after = self@;
            assert(before.queues[worker as int].remove(0) =~= before.queues[worker as int].drop_first());
            assert(after.queues =~= before.queues.update(
                worker as int,
                before.queues[worker as int].drop_first(),
            ));
            assert forall|w: int, i: int|
                0 <= w < after.queues.len() && 0 <= i < after.queues[w].len() implies (
            #[trigger] after.queues[w][i]).ticket < after.next_ticket by {
                if w == worker {
                    assert(after.queues[w][i] == before.queues[w][i + 1]);
                } else {
                    assert(after.queues[w][i] == before.queues[w][i]);
                }
            }
            assert forall|w: int, i: int, v: int, j: int|
                0 <= w < after.queues.len() && 0 <= i < after.queues[w].len() && 0 <= v
                    < after.queues.len() && 0 <= j < after.queues[v].len() && (w != v || i
                    != j) implies (#[trigger] after.queues[w][i]).ticket != (
            #[trigger] after.queues[v][j]).ticket by {
                let i0 = if w == worker {
                    i + 1
                } else {
                    i
                };
                let j0 = if v == worker {
                    j + 1
                } else {
                    j
                };
                assert(after.queues[w][i] == before.queues[w][i0]);
                assert(after.queues[v][j] == before.queues[v][j0]);
            }
        }
        Some(next)
    }

    /// Takes the operation with the ticket `ticket` out of its queue, if it
    /// still waits there, and hands it back. The operations behind it move up.
    pub fn cancel(&mut self, ticket: u64) -> (cancelled: Option<Pending>)
        requires
            old(self).wf(),
        ensures
            final(self).wf(),
            cancelled is Some <==> holds_ticket(old(self)@.queues, ticket),
            cancelled is None ==> final(self)@ == old(self)@,
            cancelled is Some ==> cancelled->Some_0.ticket == ticket && !holds_ticket(
                final(self)@.queues,
                ticket,
            ) && exists|w: int, i: int|
                0 <= w < old(self)@.queues.len() && 0 <= i < old(self)@.queues[w].len()
                    && #[trigger] old(self)@.queues[w][i] == cancelled->Some_0 && final(self)@ == (
                Pool {
                    queues: old(self)@.queues.update(w, old(self)@.queues[w].remove(i)),
                    ..old(self)@
                }),
    {
        let mut w: usize = 0;
        while w < self.queues.len()
            invariant
                w <= self.queues.len(),
                *self == *old(self),
                self.wf(),
                forall|v: int, j: int|
                    0 <= v < w && 0 <= j < self@.queues[v].len() ==> (
                    #[trigger] self@.queues[v][j]).ticket != ticket,
            decreases self.queues.len() - w,
        {
            let mut i: usize = 0;
            while i < self.queues[w].len()
                invariant
                    w < self.queues.len(),
                    i <= self.queues@[w as int]@.len(),
                    *self == *old(self),
                    self.wf(),
                    forall|v: int, j: int|
                        0 <= v < w && 0 <= j < self@.queues[v].len() ==> (
                        #[trigger] self@.queues[v][j]).ticket != ticket,
                    forall|j: int| 0 <= j < i ==> (#[trigger] self@.queues[w as int][j]).ticket != ticket,
                decreases self.queues@[w as int]@.len() - i,
            {
                if self.queues[w][i].ticket == ticket {
                    let ghost before = self@;
                    assert(before.queues[w as int][i as int].ticket == ticket);
                    let taken = self.queues[w].remove(i);
                    proof {
                        let after = self@;
                        assert(after.queues =~= before.queues.update(
                            w as int,
                            before.queues[w as int].remove(i as int),
                        ));
                        assert forall|v: int, j: int|
                            0 <= v < after.queues.len() && 0 <= j < after.queues[v].len() implies (
                        #[trigger] after.queues[v][j]).ticket < after.next_ticket && after.queues[v][j].ticket
                            != ticket by {
                            let j0 = if v == w && j >= i {
                                j + 1
                            } else {
                                j
                            };
                            assert(after.queues[v][j] == before.queues[v][j0]);
                        }
                        assert forall|v: int, j: int, u: int, k: int|
                            0 <= v < after.queues.len() && 0 <= j < after.queues[v].len() && 0 <= u
                                < after.queues.len() && 0 <= k < after.queues[u].len() && (v != u
                                || j != k) implies (#[trigger] after.queues[v][j]).ticket != (
                        #[trigger] after.queues[u][k]).ticket by {
                            let j0 = if v == w && j >= i {
                                j + 1
                            } else {
                                j
                            };
                            let k0 = if u == w && k >= i {
                                k + 1
                            } else {
                                k
                            };
                            assert(after.queues[v][j] == before.queues[v][j0]);
                            assert(after.queues[u][k] == before.queues[u][k0]);
                        }
                    }
                    return Some(taken);
                }
                i += 1;
            }
            w += 1;
        }
        None
    }

    /// Records that `worker` has terminated and hands back what waited for
    /// it, next first, so that the caller can fail each of those operations.
    /// The worker gets no further operation.
    pub fn terminate(&mut self, worker: usize) -> (orphans: Vec<Pending>)
        requires
            old(self).wf(),
        ensures
            final(self).wf(),
            worker < old(self)@.alive.len() ==> orphans@ == old(self)@.queues[worker as int]
                && final(self)@ == (Pool {
                alive: old(self)@.alive.update(worker as int, false),
                queues: old(self)@.queues.update(worker as int, Seq::empty()),
                ..old(self)@
            }),
            worker >= old(self)@.alive.len() ==> orphans@.len() == 0 && final(self)@ == old(self)@,
    {
        let mut orphans: Vec<Pending> = Vec::new();
        if worker >= self.alive.len() {
            return orphans;
        }
        let ghost before = self@;
        std::mem::swap(&mut self.queues[worker], &mut orphans);
        self.alive.set(worker, false);
        proof {
            let after = self@;
            assert(after.queues =~= before.queues.update(worker as int, Seq::empty()));
            assert forall|w: int, i: int|
                0 <= w < after.queues.len() && 0 <= i < after.queues[w].len() implies after.queues[w][i]
                == before.queues[w][i] by {}
        }
        orphans
    }

    /// Number of workers, alive or not.
    pub fn worker_count(&self) -> (count: usize)
        ensures
            count == self@.alive.len(),
    {
        self.alive.len()
    }

    /// Whether `worker` still runs.
    pub fn is_alive(&self, worker: usize) -> (alive: bool)
        ensures
            alive == (worker < self@.alive.len() && self@.alive[worker as int]),
    {
        worker < self.alive.len() && self.alive[worker]
    }

    /// Number of operations that wait for `worker`.
    pub fn pending_count(&self, worker: usize) -> (count: usize)
        requires
            self.wf(),
        ensures
            worker < self@.queues.len() ==> count == self@.queues[worker as int].len(),
            worker >= self@.queues.len() ==> count == 0,
    {
        if worker < self.queues.len() {
            self.queues[worker].len()
        } else {
            0
        }
    }

    /// Since when the operation at the head of `worker`'s queue has waited.
    pub fn queued_since(&self, worker: usize) -> (since: Option<u64>)
        requires
            self.wf(),
        ensures
            worker < self@.queues.len() && self@.queues[worker as int].len() > 0 ==> since == Some(
                self@.queues[worker as int][0].queued_since,
            ),
            worker >= self@.queues.len() || self@.queues[worker as int].len() == 0 ==> since
                is None,
    {
        if worker < self.queues.len() && self.queues[worker].len() > 0 {
            Some(self.queues[worker][0].queued_since)
        } else {
            None
        }
    }
}

} // verus!
