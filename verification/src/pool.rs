//! The pool handle and its state model.
//!
//! `ThreadPool` models a fixed-size worker pool: a set of workers with
//! stable ids `1..=N`, the dispatch channel they all drain, and the record
//! of what has happened to every submitted job.  Construction, submission,
//! one worker running or crashing on one job, and teardown are each a
//! verified transition with an exact contract; the well-formedness
//! invariant ties them together and carries the conservation law: every
//! job ever submitted is completed, failed, discarded at teardown, or
//! still queued — none is lost silently and none runs twice.

use vstd::prelude::*;
use vstd::multiset::Multiset;

use crate::dispatch::Dispatch;
use crate::message::Message;

verus! {

/// What has become of one worker's thread.
#[derive(Clone, Copy, Debug, PartialEq, Eq, Structural)]
pub enum WorkerState {
    /// The thread loops on the channel, ready to run work.
    Running,
    /// A job it ran failed; the thread ended abnormally and the pool's
    /// capacity is down by one for the rest of the pool's life.
    Crashed,
    /// The thread saw the terminate sentinel during teardown and returned.
    Exited,
}

/// One worker: a numeric identity, assigned once at construction and
/// stable for the worker's lifetime, and the state of its thread.
#[derive(Clone, Copy, Debug, PartialEq, Eq, Structural)]
pub struct Worker {
    pub id: usize,
    pub state: WorkerState,
}

/// Why a pool could not be built.
#[derive(Clone, Copy, Debug, PartialEq, Eq, Structural)]
pub enum PoolError {
    /// A pool of size zero is a contract violation: it is refused and no
    /// worker is spawned.
    SizeZero,
}

/// How many of these workers are still running.
pub open spec fn running_count(ws: Seq<Worker>) -> nat
    decreases ws.len(),
{
    if ws.len() == 0 {
        0
    } else {
        running_count(ws.drop_last()) + if ws.last().state is Running {
            1nat
        } else {
            0nat
        }
    }
}

/// The payload of a work message.
pub open spec fn payload<T>(m: Message<T>) -> T
    recommends
        m is Work,
{
    m->0
}

/// The jobs carried by a queue of work messages, in queue order.
pub open spec fn payloads<T>(q: Seq<Message<T>>) -> Seq<T> {
    q.map_values(|m: Message<T>| payload(m))
}

/// The ids of the workers that have crashed, in id order: what the joins
/// of a full teardown report.
pub open spec fn crashed_ids(ws: Seq<Worker>) -> Seq<usize>
    decreases ws.len(),
{
    if ws.len() == 0 {
        Seq::empty()
    } else {
        crashed_ids(ws.drop_last()) + if ws.last().state is Crashed {
            seq![ws.last().id]
        } else {
            Seq::empty()
        }
    }
}

/// The pool handle: the workers it owns, ordered by id, the dispatch
/// channel they share, and the model's bookkeeping of every job.
pub struct ThreadPool<T> {
    workers: Vec<Worker>,
    channel: Dispatch<T>,
    completed: Vec<T>,
    failed: Vec<T>,
    discarded: Vec<T>,
    torn_down: bool,
    submitted: Ghost<Seq<T>>,
}

impl<T> ThreadPool<T> {
    /// The number of workers the pool was built with.
    pub open spec fn worker_count(self) -> nat {
        self.workers().len()
    }

    /// The workers, ordered by id.
    pub closed spec fn workers(self) -> Seq<Worker> {
        self.workers@
    }

    /// How many workers are still running.
    pub open spec fn live_count(self) -> nat {
        running_count(self.workers())
    }

    /// The messages in the dispatch channel, oldest first.
    pub closed spec fn queued(self) -> Seq<Message<T>> {
        self.channel@
    }

    /// The jobs that workers have run to completion, in the order the
    /// model ran them.  Only what the set of completed jobs is may be
    /// relied on: the real pool completes jobs on concurrent threads in
    /// no guaranteed order.
    pub closed spec fn completed(self) -> Seq<T> {
        self.completed@
    }

    /// The jobs whose execution failed, crashing their worker.
    pub closed spec fn failed(self) -> Seq<T> {
        self.failed@
    }

    /// The jobs destroyed unexecuted, together with the channel, at
    /// teardown.  This can only be non-empty when every worker had already
    /// crashed, leaving nobody to drain the queue.
    pub closed spec fn discarded(self) -> Seq<T> {
        self.discarded@
    }

    /// Whether teardown has run.  A torn-down handle accepts no work.
    pub closed spec fn torn_down(self) -> bool {
        self.torn_down
    }

    /// Every job ever submitted to this pool, in submission order.
    pub closed spec fn submitted(self) -> Seq<T> {
        self.submitted@
    }

    /// Well-formedness: worker ids are `1..=N` in order; a live pool holds
    /// only work messages (terminate sentinels exist only inside teardown)
    /// and no exited worker; a torn-down pool has an empty channel and no
    /// running worker; and the conservation law: the multiset of submitted
    /// jobs is exactly the completed, the failed, the discarded and the
    /// still-queued ones together.
    pub closed spec fn wf(self) -> bool {
        &&& self.workers@.len() >= 1
        &&& forall|i: int|
            0 <= i < self.workers@.len() ==> (#[trigger] self.workers@[i]).id == i + 1
        &&& (!self.torn_down ==> forall|i: int|
            0 <= i < self.channel@.len() ==> (#[trigger] self.channel@[i]) is Work)
        &&& (!self.torn_down ==> forall|i: int|
            0 <= i < self.workers@.len()
                ==> !((#[trigger] self.workers@[i]).state is Exited))
        &&& (self.torn_down ==> self.channel@.len() == 0)
        &&& (self.torn_down ==> forall|i: int|
            0 <= i < self.workers@.len()
                ==> !((#[trigger] self.workers@[i]).state is Running))
        &&& self.submitted@.to_multiset() == self.completed@.to_multiset().add(
            self.failed@.to_multiset(),
        ).add(self.discarded@.to_multiset()).add(payloads(self.channel@).to_multiset())
    }

    /// Build a pool of `size` workers, ids `1..=size`, all running, with a
    /// fresh empty channel.  A size of zero is a contract violation and is
    /// refused: no worker is spawned.
    pub fn construct(size: usize) -> (r: Result<ThreadPool<T>, PoolError>)
        ensures
            size == 0 <==> r is Err,
            r matches Err(e) ==> e == PoolError::SizeZero,
            r matches Ok(p) ==> {
                &&& p.wf()
                &&& p.worker_count() == size
                &&& forall|i: int|
                    0 <= i < size ==> #[trigger] p.workers()[i] == (Worker {
                        id: (i + 1) as usize,
                        state: WorkerState::Running,
                    })
                &&& p.live_count() == size
                &&& p.queued() == Seq::<Message<T>>::empty()
                &&& p.completed() == Seq::<T>::empty()
                &&& p.failed() == Seq::<T>::empty()
                &&& p.discarded() == Seq::<T>::empty()
                &&& p.submitted() == Seq::<T>::empty()
                &&& !p.torn_down()
            },
    {
        if size == 0 {
            Err(PoolError::SizeZero)
        } else {
            Ok(Self::new(size))
        }
    }

    /// Build a pool of `size` workers.  The size must be positive; the
    /// fallible front door for an unchecked size is `construct`.
    pub fn new(size: usize) -> (p: ThreadPool<T>)
        requires
            size >= 1,
        ensures
            p.wf(),
            p.worker_count() == size,
            forall|i: int|
                0 <= i < size ==> #[trigger] p.workers()[i] == (Worker {
                    id: (i + 1) as usize,
                    state: WorkerState::Running,
                }),
            p.live_count() == size,
            p.queued() == Seq::<Message<T>>::empty(),
            p.completed() == Seq::<T>::empty(),
            p.failed() == Seq::<T>::empty(),
            p.discarded() == Seq::<T>::empty(),
            p.submitted() == Seq::<T>::empty(),
            !p.torn_down(),
    {
        let mut workers: Vec<Worker> = Vec::new();
        let mut i: usize = 0;
        while i < size
            invariant
                i <= size,
                workers@.len() == i,
                forall|k: int|
                    0 <= k < i ==> #[trigger] workers@[k] == (Worker {
                        id: (k + 1) as usize,
                        state: WorkerState::Running,
                    }),
                running_count(workers@) == i,
            decreases size - i,
        {
            let w = Worker { id: i + 1, state: WorkerState::Running };
            proof {
                lemma_running_count_push(workers@, w);
            }
            workers.push(w);
            i = i + 1;
        }
        let pool = ThreadPool {
            workers,
            channel: Dispatch::new(),
            completed: Vec::new(),
            failed: Vec::new(),
            discarded: Vec::new(),
            torn_down: false,
            submitted: Ghost(Seq::empty()),
        };
        proof {
            assert(payloads(pool.channel@) =~= Seq::<T>::empty());
            lemma_to_multiset_empty::<T>();
            assert(pool.submitted@.to_multiset() =~= pool.completed@.to_multiset().add(
                pool.failed@.to_multiset(),
            ).add(pool.discarded@.to_multiset()).add(payloads(pool.channel@).to_multiset()));
        }
        pool
    }

    /// Submit one job: it is wrapped as a work message and enqueued at the
    /// back of the dispatch channel, fire and forget.  The call changes
    /// nothing else: no worker state, no completed work.  A torn-down
    /// handle is gone and must not be asked for work.
    pub fn execute(&mut self, job: T)
        requires
            old(self).wf(),
            !old(self).torn_down(),
        ensures
            final(self).wf(),
            final(self).queued() == old(self).queued().push(Message::Work(job)),
            final(self).submitted() == old(self).submitted().push(job),
            final(self).workers() == old(self).workers(),
            final(self).completed() == old(self).completed(),
            final(self).failed() == old(self).failed(),
            final(self).discarded() == old(self).discarded(),
            !final(self).torn_down(),
            final(self).live_count() == old(self).live_count(),
    {
        self.submitted = Ghost(self.submitted@.push(job));
        self.channel.send(Message::Work(job));
        proof {
            broadcast use vstd::seq_lib::to_multiset_build;
            broadcast use vstd::multiset::group_multiset_axioms;

            assert(payloads(self.channel@) =~= payloads(old(self).channel@).push(job));
            assert(self.submitted@.to_multiset() =~= self.completed@.to_multiset().add(
                self.failed@.to_multiset(),
            ).add(self.discarded@.to_multiset()).add(payloads(self.channel@).to_multiset()));
        }
    }

    /// One running worker dequeues the front message — under a live pool's
    /// invariant it is work — and invokes the job exactly once, to
    /// completion.  Any running worker may be the one that dequeues; which
    /// one makes no difference to the pool's state.
    pub fn run_next(&mut self, w: usize)
        requires
            old(self).wf(),
            !old(self).torn_down(),
            w < old(self).worker_count(),
            old(self).workers()[w as int].state is Running,
            old(self).queued().len() > 0,
        ensures
            final(self).wf(),
            final(self).completed() == old(self).completed().push(
                payload(old(self).queued()[0]),
            ),
            final(self).queued() == old(self).queued().subrange(
                1,
                old(self).queued().len() as int,
            ),
            final(self).workers() == old(self).workers(),
            final(self).failed() == old(self).failed(),
            final(self).discarded() == old(self).discarded(),
            final(self).submitted() == old(self).submitted(),
            !final(self).torn_down(),
            final(self).live_count() == old(self).live_count(),
    {
        let m = self.channel.recv();
        match m {
            Message::Work(job) => {
                self.completed.push(job);
            },
            Message::Terminate => {
                // a live pool's channel carries only work messages
                proof {
                    assert(false);
                }
            },
        }
        proof {
            broadcast use vstd::seq_lib::to_multiset_build;
            broadcast use vstd::multiset::group_multiset_axioms;

            lemma_pop_front_payload(old(self).channel@);
            assert(self.submitted@.to_multiset() =~= self.completed@.to_multiset().add(
                self.failed@.to_multiset(),
            ).add(self.discarded@.to_multiset()).add(payloads(self.channel@).to_multiset()));
        }
    }

    /// One running worker dequeues the front message and the job fails
    /// during execution: the failure propagates and ends worker `w`'s
    /// thread.  The worker is not restarted or replaced, so the pool's
    /// capacity is down by one for the rest of its life; every other
    /// worker is untouched.
    pub fn crash_next(&mut self, w: usize)
        requires
            old(self).wf(),
            !old(self).torn_down(),
            w < old(self).worker_count(),
            old(self).workers()[w as int].state is Running,
            old(self).queued().len() > 0,
        ensures
            final(self).wf(),
            final(self).workers() == old(self).workers().update(
                w as int,
                Worker { id: old(self).workers()[w as int].id, state: WorkerState::Crashed },
            ),
            final(self).failed() == old(self).failed().push(payload(old(self).queued()[0])),
            final(self).queued() == old(self).queued().subrange(
                1,
                old(self).queued().len() as int,
            ),
            final(self).completed() == old(self).completed(),
            final(self).discarded() == old(self).discarded(),
            final(self).submitted() == old(self).submitted(),
            !final(self).torn_down(),
            final(self).live_count() == old(self).live_count() - 1,
    {
        let m = self.channel.recv();
        match m {
            Message::Work(job) => {
                self.failed.push(job);
                let id = self.workers[w].id;
                self.workers.set(w, Worker { id, state: WorkerState::Crashed });
            },
            Message::Terminate => {
                // a live pool's channel carries only work messages
                proof {
                    assert(false);
                }
            },
        }
        proof {
            lemma_running_count_update(
                old(self).workers@,
                w as int,
                Worker { id: old(self).workers@[w as int].id, state: WorkerState::Crashed },
            );
            broadcast use vstd::seq_lib::to_multiset_build;
            broadcast use vstd::multiset::group_multiset_axioms;

            lemma_pop_front_payload(old(self).channel@);
            assert(self.submitted@.to_multiset() =~= self.completed@.to_multiset().add(
                self.failed@.to_multiset(),
            ).add(self.discarded@.to_multiset()).add(payloads(self.channel@).to_multiset()));
        }
    }

    /// Shut the pool down, as dropping the handle does: every pending job
    /// is drained and run by the workers still alive, one terminate
    /// sentinel per worker is enqueued, every worker thread is joined in
    /// id order, and the channel is destroyed last.  The result reports
    /// the ids of the workers whose join surfaced an abnormal exit, in id
    /// order; teardown never stops early on one of them.
    ///
    /// The send-then-join interleaving of the real shutdown is modeled in
    /// the aggregate, which is all it guarantees: any idle worker may
    /// consume any sentinel, but after `N` sends and `N` joins every
    /// worker has exited.  Only when no worker is left alive do pending
    /// jobs go down with the channel, into the discarded log.
    pub fn teardown(&mut self) -> (crashed: Vec<usize>)
        requires
            old(self).wf(),
            !old(self).torn_down(),
        ensures
            final(self).wf(),
            final(self).torn_down(),
            final(self).live_count() == 0,
            final(self).worker_count() == old(self).worker_count(),
            forall|i: int|
                0 <= i < old(self).worker_count() ==> (#[trigger] final(self).workers()[i]).id
                    == old(self).workers()[i].id,
            forall|i: int|
                0 <= i < old(self).worker_count() ==> (#[trigger] final(self).workers()[i]).state
                    == (if old(self).workers()[i].state is Crashed {
                    WorkerState::Crashed
                } else {
                    WorkerState::Exited
                }),
            final(self).queued().len() == 0,
            old(self).live_count() > 0 ==> final(self).completed() == old(self).completed()
                + payloads(old(self).queued()),
            old(self).live_count() > 0 ==> final(self).discarded() == old(self).discarded(),
            old(self).live_count() == 0 ==> final(self).completed() == old(self).completed(),
            old(self).live_count() == 0 ==> final(self).discarded() == old(self).discarded()
                + payloads(old(self).queued()),
            final(self).failed() == old(self).failed(),
            final(self).submitted() == old(self).submitted(),
            crashed@ == crashed_ids(old(self).workers()),
    {
        let n = self.workers.len();

        // Is anyone still alive to drain the queue?
        let mut any_live = false;
        let mut i: usize = 0;
        while i < n
            invariant
                i <= n,
                n == self.workers@.len(),
                *self == *old(self),
                any_live <==> exists|j: int|
                    0 <= j < i && (#[trigger] self.workers@[j]).state is Running,
            decreases n - i,
        {
            match self.workers[i].state {
                WorkerState::Running => {
                    any_live = true;
                },
                WorkerState::Crashed => {
                },
                WorkerState::Exited => {
                },
            }
            i = i + 1;
        }
        proof {
            lemma_running_count_positive(self.workers@);
            assert(any_live <==> old(self).live_count() > 0);
        }

        // Live workers keep dequeuing, so every queued job runs before any
        // sentinel is seen; with no live worker the jobs go down with the
        // channel instead.
        while self.channel.len() > 0
            invariant
                self.workers@ == old(self).workers@,
                self.failed@ == old(self).failed@,
                self.submitted@ == old(self).submitted@,
                self.torn_down == old(self).torn_down,
                forall|k: int|
                    0 <= k < self.channel@.len() ==> (#[trigger] self.channel@[k]) is Work,
                any_live ==> self.discarded@ == old(self).discarded@,
                any_live ==> self.completed@ + payloads(self.channel@) == old(self).completed@
                    + payloads(old(self).channel@),
                !any_live ==> self.completed@ == old(self).completed@,
                !any_live ==> self.discarded@ + payloads(self.channel@) == old(self).discarded@
                    + payloads(old(self).channel@),
            decreases self.channel@.len(),
        {
            let ghost prev = *self;
            let m = self.channel.recv();
            match m {
                Message::Work(job) => {
                    if any_live {
                        self.completed.push(job);
                    } else {
                        self.discarded.push(job);
                    }
                },
                Message::Terminate => {
                    // no sentinel is in the channel before they are sent below
                    proof {
                        assert(false);
                    }
                },
            }
            proof {
                let j = payload(prev.channel@[0]);
                assert(payloads(prev.channel@) =~= seq![j] + payloads(self.channel@));
                if any_live {
                    assert(self.completed@ =~= prev.completed@ + seq![j]);
                    assert(self.completed@ + payloads(self.channel@) =~= prev.completed@
                        + payloads(prev.channel@));
                } else {
                    assert(self.discarded@ =~= prev.discarded@ + seq![j]);
                    assert(self.discarded@ + payloads(self.channel@) =~= prev.discarded@
                        + payloads(prev.channel@));
                }
            }
        }
        let ghost drained = *self;
        proof {
            assert(payloads(drained.channel@) =~= Seq::<T>::empty());
            if any_live {
                assert(drained.completed@ =~= old(self).completed@ + payloads(
                    old(self).channel@,
                ));
            } else {
                assert(drained.discarded@ =~= old(self).discarded@ + payloads(
                    old(self).channel@,
                ));
            }
            assert(drained.submitted@.to_multiset() =~= drained.completed@.to_multiset().add(
                drained.failed@.to_multiset(),
            ).add(drained.discarded@.to_multiset())) by {
                broadcast use vstd::multiset::group_multiset_axioms;

                vstd::seq_lib::lemma_multiset_commutative(
                    old(self).completed@,
                    payloads(old(self).channel@),
                );
                vstd::seq_lib::lemma_multiset_commutative(
                    old(self).discarded@,
                    payloads(old(self).channel@),
                );
                lemma_to_multiset_empty::<T>();
            }
        }

        // One terminate sentinel per worker, in id order.
        let mut i: usize = 0;
        while i < n
            invariant
                i <= n,
                self.workers@ == drained.workers@,
                self.completed@ == drained.completed@,
                self.failed@ == drained.failed@,
                self.discarded@ == drained.discarded@,
                self.submitted@ == drained.submitted@,
                self.torn_down == drained.torn_down,
                self.channel@.len() == i,
                forall|k: int|
                    0 <= k < self.channel@.len() ==> (#[trigger] self.channel@[k]) is Terminate,
            decreases n - i,
        {
            self.channel.send(Message::Terminate);
            i = i + 1;
        }

        // Join every worker in id order.  A worker that was still running
        // exits on a sentinel and its join succeeds; a crashed worker's
        // join reports the abnormal exit, and the teardown carries on.
        let mut crashed: Vec<usize> = Vec::new();
        let mut i: usize = 0;
        while i < n
            invariant
                i <= n,
                n == self.workers@.len(),
                n == old(self).workers@.len(),
                old(self).wf(),
                !old(self).torn_down(),
                self.completed@ == drained.completed@,
                self.failed@ == drained.failed@,
                self.discarded@ == drained.discarded@,
                self.submitted@ == drained.submitted@,
                self.torn_down == drained.torn_down,
                self.channel@.len() == n,
                forall|k: int|
                    0 <= k < self.channel@.len() ==> (#[trigger] self.channel@[k]) is Terminate,
                forall|j: int| i <= j < n ==> self.workers@[j] == old(self).workers@[j],
                forall|j: int|
                    0 <= j < i ==> (#[trigger] self.workers@[j]).id == old(self).workers@[j].id,
                forall|j: int|
                    0 <= j < i ==> (#[trigger] self.workers@[j]).state == (if old(
                        self,
                    ).workers@[j].state is Crashed {
                        WorkerState::Crashed
                    } else {
                        WorkerState::Exited
                    }),
                crashed@ == crashed_ids(old(self).workers@.subrange(0, i as int)),
            decreases n - i,
        {
            let ghost prev_crashed = crashed@;
            let w = self.workers[i];
            match w.state {
                WorkerState::Running => {
                    self.workers.set(i, Worker { id: w.id, state: WorkerState::Exited });
                },
                WorkerState::Crashed => {
                    crashed.push(w.id);
                },
                WorkerState::Exited => {
                    proof {
                        assert(self.workers@[i as int] == old(self).workers@[i as int]);
                        assert(false);
                    }
                },
            }
            proof {
                let pre = old(self).workers@.subrange(0, i as int);
                let post = old(self).workers@.subrange(0, i as int + 1);
                assert(post.drop_last() =~= pre);
                assert(post.last() == old(self).workers@[i as int]);
                if old(self).workers@[i as int].state is Crashed {
                    assert(crashed@ =~= prev_crashed + seq![old(self).workers@[i as int].id]);
                    assert(crashed@ =~= crashed_ids(post));
                } else {
                    assert(crashed_ids(post) =~= crashed_ids(pre));
                }
            }
            i = i + 1;
        }
        let ghost joined = *self;
        proof {
            assert(old(self).workers@.subrange(0, n as int) =~= old(self).workers@);
            assert(crashed@ == crashed_ids(old(self).workers@));
            assert(forall|j: int|
                0 <= j < n ==> (#[trigger] joined.workers@[j]).id == old(self).workers@[j].id);
            assert(forall|j: int|
                0 <= j < n ==> (#[trigger] joined.workers@[j]).state == (if old(
                    self,
                ).workers@[j].state is Crashed {
                    WorkerState::Crashed
                } else {
                    WorkerState::Exited
                }));
        }

        // The channel is destroyed with the pool, after every join: the
        // sentinels that crashed workers never consumed go with it.
        while self.channel.len() > 0
            invariant
                self.workers@ == joined.workers@,
                self.completed@ == drained.completed@,
                self.failed@ == drained.failed@,
                self.discarded@ == drained.discarded@,
                self.submitted@ == drained.submitted@,
                self.torn_down == drained.torn_down,
                forall|k: int|
                    0 <= k < self.channel@.len() ==> (#[trigger] self.channel@[k]) is Terminate,
            decreases self.channel@.len(),
        {
            let m = self.channel.recv();
            match m {
                Message::Terminate => {
                },
                Message::Work(_job) => {
                    // every job was drained before the sentinels went in
                    proof {
                        assert(false);
                    }
                },
            }
        }

        self.torn_down = true;
        proof {
            assert forall|j: int| 0 <= j < self.workers@.len() implies !((
            #[trigger] self.workers@[j]).state is Running) by {
                assert(self.workers@[j] == joined.workers@[j]);
            }
            lemma_running_count_positive(self.workers@);
            assert(payloads(self.channel@) =~= Seq::<T>::empty());
            lemma_to_multiset_empty::<T>();
            assert(self.submitted@.to_multiset() =~= self.completed@.to_multiset().add(
                self.failed@.to_multiset(),
            ).add(self.discarded@.to_multiset()).add(payloads(self.channel@).to_multiset())) by {
                broadcast use vstd::multiset::group_multiset_axioms;

            }
        }
        crashed
    }

    /// How many workers the pool owns.
    pub fn num_workers(&self) -> (n: usize)
        ensures
            n == self.worker_count(),
    {
        self.workers.len()
    }

    /// The worker at position `i` of the pool's id-ordered collection.
    pub fn worker_at(&self, i: usize) -> (w: Worker)
        requires
            i < self.worker_count(),
        ensures
            w == self.workers()[i as int],
    {
        self.workers[i]
    }

    /// How many workers are still running.
    pub fn live_workers(&self) -> (n: usize)
        ensures
            n == self.live_count(),
    {
        let mut n: usize = 0;
        let mut i: usize = 0;
        while i < self.workers.len()
            invariant
                i <= self.workers@.len(),
                n == running_count(self.workers@.subrange(0, i as int)),
                n <= i,
            decreases self.workers@.len() - i,
        {
            proof {
                let pre = self.workers@.subrange(0, i as int);
                let post = self.workers@.subrange(0, i as int + 1);
                assert(post.drop_last() =~= pre);
                assert(post.last() == self.workers@[i as int]);
            }
            match self.workers[i].state {
                WorkerState::Running => {
                    n = n + 1;
                },
                WorkerState::Crashed => {
                },
                WorkerState::Exited => {
                },
            }
            i = i + 1;
        }
        proof {
            assert(self.workers@.subrange(0, self.workers@.len() as int) =~= self.workers@);
        }
        n
    }

    /// How many messages sit in the dispatch channel.
    pub fn queued_len(&self) -> (n: usize)
        ensures
            n == self.queued().len(),
    {
        self.channel.len()
    }

    /// The jobs run to completion so far, in the order the model ran them.
    pub fn completed_jobs(&self) -> (r: &Vec<T>)
        ensures
            r@ == self.completed(),
    {
        &self.completed
    }

    /// The jobs whose execution failed.
    pub fn failed_jobs(&self) -> (r: &Vec<T>)
        ensures
            r@ == self.failed(),
    {
        &self.failed
    }

    /// The jobs destroyed unexecuted at teardown.
    pub fn discarded_jobs(&self) -> (r: &Vec<T>)
        ensures
            r@ == self.discarded(),
    {
        &self.discarded
    }

    /// Whether teardown has run.
    pub fn is_torn_down(&self) -> (b: bool)
        ensures
            b == self.torn_down(),
    {
        self.torn_down
    }
}

/// Within one pool, every worker id is unique: it is assigned once at
/// construction and never reused, so the id names the worker.
pub proof fn lemma_worker_ids_unique<T>(p: ThreadPool<T>)
    requires
        p.wf(),
    ensures
        forall|i: int, j: int|
            0 <= i < p.worker_count() && 0 <= j < p.worker_count() && i != j ==> (
            #[trigger] p.workers()[i]).id != (#[trigger] p.workers()[j]).id,
{
}

/// No work is lost and none is run twice: once the channel is empty —
/// as it is after teardown — the jobs ever submitted are exactly the
/// completed ones, the failed ones and the discarded ones, counted with
/// multiplicity.
pub proof fn lemma_work_conserved<T>(p: ThreadPool<T>)
    requires
        p.wf(),
        p.queued().len() == 0,
    ensures
        p.submitted().to_multiset() == p.completed().to_multiset().add(
            p.failed().to_multiset(),
        ).add(p.discarded().to_multiset()),
{
    broadcast use vstd::multiset::group_multiset_axioms;

    assert(payloads(p.queued()) =~= Seq::<T>::empty());
    lemma_to_multiset_empty::<T>();
    assert(p.completed().to_multiset().add(p.failed().to_multiset()).add(
        p.discarded().to_multiset(),
    ).add(Multiset::<T>::empty()) =~= p.completed().to_multiset().add(
        p.failed().to_multiset(),
    ).add(p.discarded().to_multiset()));
}

/// When every job ran to completion — nothing failed, nothing was
/// discarded — the completed log holds each submitted job exactly as
/// often as it was submitted, and so exactly as many jobs as were
/// submitted: a counter bumped once per job reaches exactly that count.
/// No guarantee relates the order of the completed log to submission
/// order: jobs finish on concurrent workers in any order.
pub proof fn lemma_all_work_completed_exactly_once<T>(p: ThreadPool<T>)
    requires
        p.wf(),
        p.queued().len() == 0,
        p.failed().len() == 0,
        p.discarded().len() == 0,
    ensures
        p.completed().to_multiset() == p.submitted().to_multiset(),
        p.completed().len() == p.submitted().len(),
        forall|job: T| #[trigger] p.completed().to_multiset().count(job)
            == p.submitted().to_multiset().count(job),
{
    broadcast use vstd::multiset::group_multiset_axioms;
    broadcast use vstd::seq_lib::to_multiset_len;

    lemma_work_conserved(p);
    assert(p.failed() =~= Seq::<T>::empty());
    assert(p.discarded() =~= Seq::<T>::empty());
    lemma_to_multiset_empty::<T>();
    assert(p.completed().to_multiset().add(Multiset::<T>::empty()).add(
        Multiset::<T>::empty(),
    ) =~= p.completed().to_multiset());
    assert(p.completed().to_multiset().len() == p.completed().len());
    assert(p.submitted().to_multiset().len() == p.submitted().len());
}

/// As long as one worker is still running, the pool still serves: some
/// worker is there to dequeue the next job.  In particular, after one
/// worker crashes on a failing job, the remaining ones keep completing
/// submissions; only the capacity is down by one.
pub proof fn lemma_survivors_still_serve<T>(p: ThreadPool<T>)
    requires
        p.live_count() > 0,
    ensures
        exists|w: int|
            0 <= w < p.worker_count() && (#[trigger] p.workers()[w]).state is Running,
{
    lemma_running_count_positive(p.workers());
}

/// Popping the front work message of a queue removes exactly its payload
/// from the queue's multiset of carried jobs.
proof fn lemma_pop_front_payload<T>(q: Seq<Message<T>>)
    requires
        q.len() > 0,
        q[0] is Work,
    ensures
        payloads(q).to_multiset() == payloads(q.subrange(1, q.len() as int)).to_multiset().insert(
            payload(q[0]),
        ),
{
    broadcast use vstd::seq_lib::to_multiset_remove;
    broadcast use vstd::seq_lib::to_multiset_contains;
    broadcast use vstd::multiset::group_multiset_axioms;

    let p = payloads(q);
    let p_rest = payloads(q.subrange(1, q.len() as int));
    assert(p_rest =~= p.remove(0));
    assert(p.remove(0).to_multiset() == p.to_multiset().remove(p[0]));
    assert(p.contains(p[0]));
    assert(p.to_multiset().count(p[0]) > 0);
    assert(p_rest.to_multiset().insert(p[0]) =~= p.to_multiset());
}

/// Pushing one worker extends the running count by one exactly when the
/// worker is running.
pub proof fn lemma_running_count_push(ws: Seq<Worker>, w: Worker)
    ensures
        running_count(ws.push(w)) == running_count(ws) + if w.state is Running {
            1nat
        } else {
            0nat
        },
{
    assert(ws.push(w).drop_last() =~= ws);
}

/// Replacing the worker at `i` moves the running count by the difference
/// between the new worker's state and the old one's, and nothing more.
pub proof fn lemma_running_count_update(ws: Seq<Worker>, i: int, w: Worker)
    requires
        0 <= i < ws.len(),
    ensures
        running_count(ws.update(i, w)) + (if ws[i].state is Running {
            1nat
        } else {
            0nat
        }) == running_count(ws) + (if w.state is Running {
            1nat
        } else {
            0nat
        }),
    decreases ws.len(),
{
    if i == ws.len() - 1 {
        assert(ws.update(i, w).drop_last() =~= ws.drop_last());
        assert(ws.update(i, w).last() == w);
    } else {
        lemma_running_count_update(ws.drop_last(), i, w);
        assert(ws.update(i, w).drop_last() =~= ws.drop_last().update(i, w));
        assert(ws.update(i, w).last() == ws.last());
    }
}

/// The running count is positive exactly when some worker is running.
pub proof fn lemma_running_count_positive(ws: Seq<Worker>)
    ensures
        running_count(ws) > 0 <==> exists|i: int|
            0 <= i < ws.len() && (#[trigger] ws[i]).state is Running,
    decreases ws.len(),
{
    if ws.len() > 0 {
        lemma_running_count_positive(ws.drop_last());
        if ws.last().state is Running {
            assert(ws[ws.len() - 1].state is Running);
        } else if running_count(ws) > 0 {
            let i = choose|i: int|
                0 <= i < ws.drop_last().len() && (#[trigger] ws.drop_last()[i]).state is Running;
            assert(ws[i].state is Running);
        }
        if exists|i: int| 0 <= i < ws.len() && (#[trigger] ws[i]).state is Running {
            let i = choose|i: int| 0 <= i < ws.len() && (#[trigger] ws[i]).state is Running;
            if i < ws.len() - 1 {
                assert(ws.drop_last()[i].state is Running);
            }
        }
    }
}

/// The empty sequence carries the empty multiset.
pub proof fn lemma_to_multiset_empty<T>()
    ensures
        Seq::<T>::empty().to_multiset() == Multiset::<T>::empty(),
{
    Seq::<T>::empty().to_multiset_ensures();
}

} // verus!
