//! The processor: the global run loop's state — current thread, ready
//! queue, sleeping set — and the context-switch decisions.
//!
//! All hardware effects are decisions here: `prepare_next_thread`
//! returns what the trap exit should do (reuse the incoming frame,
//! switch to another thread's frame and address space, wait for an
//! interrupt, or shut down), and the boot code carries it out.

use vstd::prelude::*;
use crate::algo::{Scheduler, SchedulerImpl};
use crate::thread::{Context, Thread};

verus! {

/// The default hash-builder type of `hashbrown`, declared so that its
/// sets can appear in verified fields.
#[verifier::external_type_specification]
#[verifier::external_body]
pub struct ExDefaultHashBuilder(hashbrown::hash_map::DefaultHashBuilder);

/// `hashbrown`'s hash set, declared opaque: everything known about a
/// value of it goes through `sleep_set_elems`.
#[verifier::external_type_specification]
#[verifier::external_body]
#[verifier::reject_recursive_types(T)]
#[verifier::reject_recursive_types(S)]
pub struct ExHashSet<T, S>(hashbrown::HashSet<T, S>);

/// The threads a `hashbrown::HashSet` holds.
pub uninterp spec fn sleep_set_elems(s: hashbrown::HashSet<u64>) -> Set<u64>;

/// Relies on `hashbrown::HashSet::new`: the fresh set is empty.
#[verifier::external_body]
fn sleep_set_new() -> (r: hashbrown::HashSet<u64>)
    ensures
        sleep_set_elems(r) == Set::<u64>::empty(),
{
    hashbrown::HashSet::new()
}

/// Relies on `hashbrown::HashSet::insert`: afterwards the set holds the
/// old elements and the new one.
#[verifier::external_body]
fn sleep_set_insert(s: &mut hashbrown::HashSet<u64>, value: u64)
    ensures
        sleep_set_elems(*final(s)) == sleep_set_elems(*old(s)).insert(value),
{
    s.insert(value);
}

/// Relies on `hashbrown::HashSet::remove`: afterwards the set holds the
/// old elements but the removed one; the result says whether it was
/// there.
#[verifier::external_body]
fn sleep_set_remove(s: &mut hashbrown::HashSet<u64>, value: u64) -> (r: bool)
    ensures
        sleep_set_elems(*final(s)) == sleep_set_elems(*old(s)).remove(value),
        r == sleep_set_elems(*old(s)).contains(value),
{
    s.remove(&value)
}

/// Relies on `hashbrown::HashSet::is_empty`: true exactly when the set
/// holds nothing.
#[verifier::external_body]
fn sleep_set_is_empty(s: &hashbrown::HashSet<u64>) -> (r: bool)
    ensures
        r <==> sleep_set_elems(*s) =~= Set::<u64>::empty(),
{
    s.is_empty()
}

/// What the trap exit should do after a scheduling decision.
pub enum NextThread {
    /// Keep running the interrupted thread on the incoming frame.
    Same,
    /// Restore this frame after activating the address space `satp`
    /// names.
    Switch(Context, u64),
    /// No runnable thread and nothing sleeping: shut the machine down.
    Shutdown,
    /// No runnable thread but sleepers remain: wait for an interrupt
    /// and ask again.
    WaitForInterrupt,
}

/// Thread scheduling and management: the current thread, the scheduler,
/// and the sleeping threads.
pub struct Processor {
    /// Every live thread, keyed by its identifier.
    threads: Vec<Thread>,
    /// The identifier of the thread executing on the CPU.
    current_thread: Option<u64>,
    /// The ready queue, in the scheduler's keeping.
    scheduler: SchedulerImpl,
    /// The identifiers of threads parked waiting on I/O.
    sleeping_threads: hashbrown::HashSet<u64>,
}

impl Processor {
    /// The recorded threads.
    pub closed spec fn spec_threads(&self) -> Seq<Thread> {
        self.threads@
    }

    /// The identifier of the executing thread.
    pub closed spec fn spec_current(&self) -> Option<u64> {
        self.current_thread
    }

    /// The ready queue.
    pub closed spec fn sched_queue(&self) -> Seq<u64> {
        self.scheduler.queue()
    }

    /// The sleeping threads.
    pub closed spec fn sleeping(&self) -> Set<u64> {
        sleep_set_elems(self.sleeping_threads)
    }

    /// Whether a thread with identifier `id` is recorded.
    pub open spec fn has_thread(&self, id: u64) -> bool {
        exists|j: int|
            0 <= j < self.spec_threads().len() && (#[trigger] self.spec_threads()[j]).id.0 == id
    }

    /// Position of the thread with identifier `id`.
    pub open spec fn thread_index(&self, id: u64) -> int {
        choose|j: int|
            0 <= j < self.spec_threads().len() && (#[trigger] self.spec_threads()[j]).id.0 == id
    }

    /// The record of the thread with identifier `id`.
    pub open spec fn thread_of(&self, id: u64) -> Thread {
        self.spec_threads()[self.thread_index(id)]
    }

    /// Distinct recorded threads carry distinct identifiers.
    pub open spec fn ids_distinct(&self) -> bool {
        forall|j1: int, j2: int|
            0 <= j1 < self.spec_threads().len() && 0 <= j2 < self.spec_threads().len() && j1
                != j2 ==> (#[trigger] self.spec_threads()[j1]).id.0 != (
            #[trigger] self.spec_threads()[j2]).id.0
    }

    /// The processor is consistent: thread identifiers are distinct,
    /// every queued or sleeping or current identifier is recorded, the
    /// queue holds no identifier twice, and every thread off the CPU has
    /// its frame in its slot.
    pub open spec fn wf(&self) -> bool {
        &&& self.ids_distinct()
        &&& forall|i: int|
            0 <= i < self.sched_queue().len() ==> self.has_thread(
                #[trigger] self.sched_queue()[i],
            )
        &&& forall|i1: int, i2: int|
            0 <= i1 < self.sched_queue().len() && 0 <= i2 < self.sched_queue().len() && i1
                != i2 ==> #[trigger] self.sched_queue()[i1] != #[trigger] self.sched_queue()[
                i2
            ]
        &&& (self.spec_current() matches Some(c) ==> self.has_thread(c))
        &&& forall|j: int|
            0 <= j < self.spec_threads().len() && Some((#[trigger] self.spec_threads()[j]).id.0)
                != self.spec_current() ==> self.spec_threads()[j].context is Some
    }

    /// A processor with no threads at all.
    pub fn new() -> (r: Processor)
        ensures
            r.wf(),
            r.spec_threads().len() == 0,
            r.spec_current() is None,
            r.sched_queue().len() == 0,
            r.sleeping() == Set::<u64>::empty(),
    {
        Processor {
            threads: Vec::new(),
            current_thread: None,
            scheduler: SchedulerImpl::new(),
            sleeping_threads: sleep_set_new(),
        }
    }

    /// Find the position of a recorded thread.
    #[verifier::loop_isolation(false)]
    fn find_thread(&self, id: u64) -> (r: usize)
        requires
            self.has_thread(id),
            self.ids_distinct(),
        ensures
            r < self.spec_threads().len(),
            self.spec_threads()[r as int].id.0 == id,
            r == self.thread_index(id),
    {
        let mut j: usize = 0;
        while j < self.threads.len()
            invariant
                j <= self.spec_threads().len(),
                forall|k: int|
                    0 <= k < j ==> (#[trigger] self.spec_threads()[k]).id.0 != id,
                self.has_thread(id),
            decreases self.spec_threads().len() - j,
        {
            if self.threads[j].id.0 == id {
                proof {
                    assert(self.spec_threads()[j as int].id.0 == id);
                    let c = self.thread_index(id);
                    assert(self.spec_threads()[c].id.0 == id);
                    assert(j as int == c);
                }
                return j;
            }
            j = j + 1;
        }
        proof {
            let k = choose|k: int|
                0 <= k < self.spec_threads().len() && (#[trigger] self.spec_threads()[k]).id.0
                    == id;
            assert(false);
        }
        0
    }

    /// Whether a thread currently occupies the CPU slot.
    pub fn has_current(&self) -> (r: bool)
        ensures
            r == (self.spec_current() is Some),
    {
        self.current_thread.is_some()
    }

    /// The identifier of the executing thread.
    pub fn current_thread(&self) -> (r: u64)
        requires
            self.spec_current() is Some,
        ensures
            Some(r) == self.spec_current(),
    {
        self.current_thread.unwrap()
    }

    /// The record of a thread, for inspection.
    pub fn thread(&self, id: u64) -> (r: &Thread)
        requires
            self.has_thread(id),
            self.ids_distinct(),
        ensures
            *r == self.thread_of(id),
    {
        let j = self.find_thread(id);
        proof {
            let c = self.thread_index(id);
            assert(self.spec_threads()[c].id.0 == id);
        }
        &self.threads[j]
    }

    /// Register a thread: it becomes current if nothing is, and enters
    /// the scheduler either way.
    pub fn add_thread(&mut self, thread: Thread)
        requires
            old(self).wf(),
            !old(self).has_thread(thread.id.0),
            thread.context is Some,
        ensures
            final(self).wf(),
            final(self).spec_threads() == old(self).spec_threads().push(thread),
            final(self).sched_queue() == old(self).sched_queue().push(thread.id.0),
            final(self).spec_current() == (if old(self).spec_current() is None {
                Some(thread.id.0)
            } else {
                old(self).spec_current()
            }),
            final(self).sleeping() == old(self).sleeping(),
    {
        proof {
            assert forall|i: int|
                0 <= i < self.sched_queue().len() implies #[trigger] self.sched_queue()[i]
                != thread.id.0 by {
                assert(self.has_thread(self.sched_queue()[i]));
            }
        }
        if self.current_thread.is_none() {
            self.current_thread = Some(thread.id.0);
        }
        let tid = thread.id.0;
        self.threads.push(thread);
        self.scheduler.add_thread(tid, 0);
        proof {
            let mf = *self;
            let n0 = old(self).spec_threads().len() as int;
            assert forall|i: int|
                0 <= i < mf.sched_queue().len() implies mf.has_thread(
                #[trigger] mf.sched_queue()[i],
            ) by {
                if i < mf.sched_queue().len() - 1 {
                    assert(old(self).has_thread(old(self).sched_queue()[i]));
                    let j = choose|j: int|
                        0 <= j < old(self).spec_threads().len() && (#[trigger] old(
                            self,
                        ).spec_threads()[j]).id.0 == old(self).sched_queue()[i];
                    assert(mf.spec_threads()[j].id.0 == mf.sched_queue()[i]);
                } else {
                    assert(mf.spec_threads()[n0].id.0 == thread.id.0);
                }
            }
            match old(self).spec_current() {
                Some(c) => {
                    let j = choose|j: int|
                        0 <= j < old(self).spec_threads().len() && (#[trigger] old(
                            self,
                        ).spec_threads()[j]).id.0 == c;
                    assert(mf.spec_threads()[j].id.0 == c);
                },
                None => {
                    assert(mf.spec_threads()[n0].id.0 == thread.id.0);
                },
            }
        }
    }

    /// Save the executing thread's frame into its slot, without touching
    /// the scheduler.
    pub fn park_current_thread(&mut self, context: &Context)
        requires
            old(self).wf(),
            old(self).spec_current() matches Some(c) && old(self).thread_of(c).context is None,
        ensures
            final(self).wf(),
            final(self).spec_current() == old(self).spec_current(),
            final(self).sched_queue() == old(self).sched_queue(),
            final(self).sleeping() == old(self).sleeping(),
            final(self).spec_threads().len() == old(self).spec_threads().len(),
            ({
                let c = old(self).spec_current()->0;
                let j = old(self).thread_index(c);
                final(self).spec_threads() == old(self).spec_threads().update(
                    j,
                    Thread { context: Some(*context), ..old(self).spec_threads()[j] },
                )
            }),
            final(self).thread_of(old(self).spec_current()->0) == (Thread {
                context: Some(*context),
                ..old(self).thread_of(old(self).spec_current()->0)
            }),
            forall|t: u64|
                t != old(self).spec_current()->0 && old(self).has_thread(t)
                    ==> #[trigger] final(self).thread_of(t) == old(self).thread_of(t),
    {
        let c = self.current_thread.unwrap();
        let j = self.find_thread(c);
        self.threads[j].park(*context);
        proof {
            let mf = *self;
            assert forall|i: int|
                0 <= i < mf.sched_queue().len() implies mf.has_thread(
                #[trigger] mf.sched_queue()[i],
            ) by {
                assert(old(self).has_thread(old(self).sched_queue()[i]));
                let k = choose|k: int|
                    0 <= k < old(self).spec_threads().len() && (#[trigger] old(
                        self,
                    ).spec_threads()[k]).id.0 == old(self).sched_queue()[i];
                assert(mf.spec_threads()[k].id.0 == mf.sched_queue()[i]);
            }
            assert(mf.spec_threads()[j as int].id.0 == c);
            assert(mf.thread_index(c) == j as int);
            assert(old(self).thread_index(c) == j as int);
            assert forall|t: u64|
                t != c && old(self).has_thread(t) implies #[trigger] mf.thread_of(t) == old(
                self,
            ).thread_of(t) by {
                let k = old(self).thread_index(t);
                assert(old(self).spec_threads()[k].id.0 == t);
                assert(k != j as int);
                assert(mf.spec_threads()[k].id.0 == t);
                assert(mf.thread_index(t) == k);
            }
        }
    }
}

impl Processor {
    /// Start running: take the current thread's frame out of its slot
    /// and hand it, with the thread's `satp`, to the restore stub. The
    /// boot code never returns from that.
    pub fn run(&mut self) -> (r: (Context, u64))
        requires
            old(self).wf(),
            old(self).spec_current() matches Some(c) && old(self).thread_of(c).context
                is Some,
        ensures
            final(self).wf(),
            final(self).spec_current() == old(self).spec_current(),
            final(self).sched_queue() == old(self).sched_queue(),
            final(self).sleeping() == old(self).sleeping(),
            final(self).spec_threads().len() == old(self).spec_threads().len(),
            ({
                let c = old(self).spec_current()->0;
                &&& Some(r.0) == old(self).thread_of(c).context
                &&& r.1 == old(self).thread_of(c).satp
                &&& final(self).thread_of(c).context is None
            }),
    {
        let c = self.current_thread.unwrap();
        let j = self.find_thread(c);
        let ctx = self.threads[j].prepare();
        let satp = self.threads[j].satp;
        proof {
            let mf = *self;
            assert(mf.spec_threads()[j as int].id.0 == c);
            assert(mf.thread_index(c) == j as int);
            assert forall|i: int|
                0 <= i < mf.sched_queue().len() implies mf.has_thread(
                #[trigger] mf.sched_queue()[i],
            ) by {
                let k = choose|k: int|
                    0 <= k < old(self).spec_threads().len() && (#[trigger] old(
                        self,
                    ).spec_threads()[k]).id.0 == old(self).sched_queue()[i];
                assert(mf.spec_threads()[k].id.0 == mf.sched_queue()[i]);
            }
            assert(mf.spec_threads()[j as int].id.0 == c);
        }
        (ctx, satp)
    }

    /// Begin running if anything was ever scheduled: the current
    /// thread's frame and address space for the restore stub, or
    /// nothing — a boot that spawned no thread shuts the machine down
    /// cleanly.
    pub fn try_run(&mut self) -> (r: Option<(Context, u64)>)
        requires
            old(self).wf(),
            old(self).spec_current() matches Some(c) ==> old(self).thread_of(c).context
                is Some,
        ensures
            final(self).wf(),
            r is None <==> old(self).spec_current() is None,
            r is None ==> *final(self) == *old(self),
            r matches Some(p) ==> ({
                let c = old(self).spec_current()->0;
                &&& Some(p.0) == old(self).thread_of(c).context
                &&& p.1 == old(self).thread_of(c).satp
                &&& final(self).thread_of(c).context is None
                &&& final(self).spec_current() == old(self).spec_current()
                &&& final(self).sched_queue() == old(self).sched_queue()
                &&& final(self).sleeping() == old(self).sleeping()
                &&& final(self).spec_threads().len() == old(self).spec_threads().len()
            }),
    {
        if self.current_thread.is_none() {
            return None;
        }
        let pair = self.run();
        Some(pair)
    }

    /// At a timer tick, decide what runs next.
    ///
    /// The scheduler picks a thread. If it is the current one, the
    /// incoming frame is reused unchanged. Otherwise the chosen thread's
    /// frame leaves its slot — the slot becomes empty — and the outgoing
    /// thread, if its slot was empty (it was truly running), is parked
    /// with a copy of the incoming frame. With an empty scheduler the
    /// machine shuts down when nothing sleeps, and otherwise waits for
    /// an interrupt to wake a sleeper.
    pub fn prepare_next_thread(&mut self, context: &Context) -> (r: NextThread)
        requires
            old(self).wf(),
        ensures
            final(self).wf(),
            final(self).sleeping() == old(self).sleeping(),
            final(self).spec_threads().len() == old(self).spec_threads().len(),
            forall|t: u64|
                final(self).sched_queue().contains(t) <==> old(self).sched_queue().contains(
                    t,
                ),
            forall|t: u64| final(self).has_thread(t) <==> old(self).has_thread(t),
            match r {
                NextThread::Same => {
                    &&& old(self).sched_queue().len() > 0
                    &&& Some(old(self).sched_queue()[0]) == old(self).spec_current()
                    &&& final(self).spec_threads() == old(self).spec_threads()
                    &&& final(self).spec_current() == old(self).spec_current()
                    &&& final(self).sched_queue() == crate::algo::fifo_rotate(
                        old(self).sched_queue(),
                    )
                },
                NextThread::Switch(ctx, satp) => {
                    let next = old(self).sched_queue()[0];
                    &&& old(self).sched_queue().len() > 0
                    &&& Some(next) != old(self).spec_current()
                    &&& final(self).spec_current() == Some(next)
                    &&& final(self).sched_queue() == crate::algo::fifo_rotate(
                        old(self).sched_queue(),
                    )
                    &&& Some(ctx) == old(self).thread_of(next).context
                    &&& final(self).thread_of(next).context is None
                    &&& satp == old(self).thread_of(next).satp
                    &&& (old(self).spec_current() matches Some(c) ==> {
                        &&& (old(self).thread_of(c).context is None
                            ==> final(self).thread_of(c).context == Some(*context))
                        &&& (old(self).thread_of(c).context is Some
                            ==> final(self).thread_of(c).context == old(self).thread_of(
                            c,
                        ).context)
                    })
                },
                NextThread::Shutdown => {
                    &&& old(self).sched_queue().len() == 0
                    &&& old(self).sleeping() =~= Set::<u64>::empty()
                    &&& final(self).spec_threads() == old(self).spec_threads()
                    &&& final(self).spec_current() == old(self).spec_current()
                    &&& final(self).sched_queue() == old(self).sched_queue()
                },
                NextThread::WaitForInterrupt => {
                    &&& old(self).sched_queue().len() == 0
                    &&& !(old(self).sleeping() =~= Set::<u64>::empty())
                    &&& final(self).spec_threads() == old(self).spec_threads()
                    &&& final(self).spec_current() == old(self).spec_current()
                    &&& final(self).sched_queue() == old(self).sched_queue()
                },
            },
    {
        let next_opt = self.scheduler.get_next();
        match next_opt {
            None => {
                if sleep_set_is_empty(&self.sleeping_threads) {
                    NextThread::Shutdown
                } else {
                    NextThread::WaitForInterrupt
                }
            },
            Some(next) => {
                proof {
                    assert(old(self).sched_queue().contains(old(self).sched_queue()[0]));
                    assert(self.sched_queue() == crate::algo::fifo_rotate(
                        old(self).sched_queue(),
                    ));
                    assert forall|i1: int, i2: int|
                        0 <= i1 < self.sched_queue().len() && 0 <= i2
                            < self.sched_queue().len() && i1 != i2 implies #[trigger] self
                        .sched_queue()[i1] != #[trigger] self.sched_queue()[i2] by {
                        let q0 = old(self).sched_queue();
                        let n = q0.len() as int;
                        let y1: int = if i1 < n - 1 { i1 + 1 } else { 0 };
                        let y2: int = if i2 < n - 1 { i2 + 1 } else { 0 };
                        assert(self.sched_queue()[i1] == q0[y1]);
                        assert(self.sched_queue()[i2] == q0[y2]);
                    }
                    assert forall|t: u64|
                        self.sched_queue().contains(t) <==> old(self).sched_queue().contains(
                        t,
                    ) by {
                        crate::algo::lemma_rotate_contains(old(self).sched_queue(), t);
                    }
                }
                let is_same = match self.current_thread {
                    Some(c) => c == next,
                    None => false,
                };
                if is_same {
                    NextThread::Same
                } else {
                    proof {
                        assert(old(self).has_thread(next));
                        assert(old(self).thread_of(next).context is Some);
                    }
                    let j = self.find_thread(next);
                    let ctx = self.threads[j].prepare();
                    let satp = self.threads[j].satp;
                    let cur_opt = self.current_thread;
                    if let Some(c) = cur_opt {
                        proof {
                            assert(old(self).has_thread(c));
                            let kk = old(self).thread_index(c);
                            assert(self.spec_threads()[kk].id.0 == c);
                            assert(self.has_thread(c));
                            assert forall|a: int, b: int|
                                0 <= a < self.spec_threads().len() && 0 <= b
                                    < self.spec_threads().len() && a != b implies (
                            #[trigger] self.spec_threads()[a]).id.0 != (
                            #[trigger] self.spec_threads()[b]).id.0 by {
                                assert(self.spec_threads()[a].id == old(self).spec_threads()[
                                    a
                                ].id);
                                assert(self.spec_threads()[b].id == old(self).spec_threads()[
                                    b
                                ].id);
                            }
                        }
                        let k = self.find_thread(c);
                        if self.threads[k].context.is_none() {
                            self.threads[k].park(*context);
                        }
                    }
                    self.current_thread = Some(next);
                    proof {
                        let mf = *self;
                        assert forall|t: u64|
                            mf.has_thread(t) <==> old(self).has_thread(t) by {
                            assert forall|x: int|
                                0 <= x < mf.spec_threads().len() implies (
                            #[trigger] mf.spec_threads()[x]).id == old(self).spec_threads()[
                                x
                            ].id by {}
                            if mf.has_thread(t) {
                                let x = choose|x: int|
                                    0 <= x < mf.spec_threads().len() && (
                                    #[trigger] mf.spec_threads()[x]).id.0 == t;
                                assert(old(self).spec_threads()[x].id.0 == t);
                            }
                            if old(self).has_thread(t) {
                                let x = choose|x: int|
                                    0 <= x < old(self).spec_threads().len() && (#[trigger] old(
                                        self,
                                    ).spec_threads()[x]).id.0 == t;
                                assert(mf.spec_threads()[x].id.0 == t);
                            }
                        }
                        assert forall|i: int|
                            0 <= i < mf.sched_queue().len() implies mf.has_thread(
                            #[trigger] mf.sched_queue()[i],
                        ) by {
                            assert(old(self).has_thread(mf.sched_queue()[i]));
                            let k2 = choose|k2: int|
                                0 <= k2 < old(self).spec_threads().len() && (#[trigger] old(
                                    self,
                                ).spec_threads()[k2]).id.0 == mf.sched_queue()[i];
                            assert(mf.spec_threads()[k2].id.0 == mf.sched_queue()[i]);
                        }
                        assert(mf.spec_threads()[j as int].id.0 == next);
                        assert(mf.has_thread(next));
                        assert(mf.thread_index(next) == j as int);
                        assert(old(self).thread_index(next) == j as int);
                        match old(self).spec_current() {
                            Some(c) => {
                                let k = old(self).thread_index(c);
                                assert(mf.spec_threads()[k].id.0 == c);
                                assert(mf.thread_index(c) == k);
                            },
                            None => {},
                        }
                        assert forall|j2: int|
                            0 <= j2 < mf.spec_threads().len() && Some(
                                (#[trigger] mf.spec_threads()[j2]).id.0,
                            ) != mf.spec_current() implies mf.spec_threads()[j2].context
                            is Some by {
                            if j2 == j as int {
                            } else {
                                match old(self).spec_current() {
                                    Some(c) => {
                                        if j2 == old(self).thread_index(c) {
                                        } else {
                                            assert(mf.spec_threads()[j2] == old(
                                                self,
                                            ).spec_threads()[j2]);
                                        }
                                    },
                                    None => {
                                        assert(mf.spec_threads()[j2] == old(
                                            self,
                                        ).spec_threads()[j2]);
                                    },
                                }
                            }
                        }
                    }
                    NextThread::Switch(ctx, satp)
                }
            },
        }
    }

    /// Move the current thread out of the scheduler and into the
    /// sleeping set; it stays current until the next switch.
    pub fn sleep_current_thread(&mut self)
        requires
            old(self).wf(),
            old(self).spec_current() matches Some(c) && old(self).sched_queue().contains(c),
        ensures
            final(self).wf(),
            final(self).spec_threads() == old(self).spec_threads(),
            final(self).spec_current() == old(self).spec_current(),
            !final(self).sched_queue().contains(old(self).spec_current()->0),
            forall|t: u64|
                t != old(self).spec_current()->0 ==> (final(self).sched_queue().contains(t)
                    <==> old(self).sched_queue().contains(t)),
            final(self).sleeping() == old(self).sleeping().insert(
                old(self).spec_current()->0,
            ),
    {
        let c = self.current_thread.unwrap();
        proof {
            let q = old(self).sched_queue();
            assert forall|i1: int, i2: int|
                0 <= i1 < q.len() && 0 <= i2 < q.len() && (#[trigger] q[i1]) == c && (
            #[trigger] q[i2]) == c implies i1 == i2 by {}
        }
        self.scheduler.remove_thread(c);
        sleep_set_insert(&mut self.sleeping_threads, c);
        proof {
            assert(self.spec_threads() == old(self).spec_threads());
            let q0 = old(self).sched_queue();
            let i = choose|i: int| 0 <= i < q0.len() && q0[i] == c;
            assert(self.sched_queue() == q0.remove(i));
            crate::algo::lemma_remove_once(q0, c, i);
            crate::algo::lemma_remove_keeps_distinct(q0, i);
            assert forall|x: int|
                0 <= x < self.sched_queue().len() implies self.has_thread(
                #[trigger] self.sched_queue()[x],
            ) by {
                let t = self.sched_queue()[x];
                assert(self.sched_queue().contains(t));
                assert(t != c);
                assert(q0.contains(t));
                let y = choose|y: int| 0 <= y < q0.len() && q0[y] == t;
                assert(old(self).has_thread(q0[y]));
            }
        }
    }

    /// Bring a sleeping thread back: out of the sleeping set, into the
    /// scheduler.
    pub fn wake_thread(&mut self, thread: u64)
        requires
            old(self).wf(),
            old(self).has_thread(thread),
            !old(self).sched_queue().contains(thread),
        ensures
            final(self).wf(),
            final(self).spec_threads() == old(self).spec_threads(),
            final(self).spec_current() == old(self).spec_current(),
            final(self).sched_queue() == old(self).sched_queue().push(thread),
            final(self).sleeping() == old(self).sleeping().remove(thread),
    {
        sleep_set_remove(&mut self.sleeping_threads, thread);
        self.scheduler.add_thread(thread, 0);
        proof {
            let q0 = old(self).sched_queue();
            assert forall|x: int|
                0 <= x < self.sched_queue().len() implies self.has_thread(
                #[trigger] self.sched_queue()[x],
            ) by {
                if x < q0.len() {
                    assert(q0[x] == self.sched_queue()[x]);
                    assert(q0.contains(q0[x]));
                }
            }
            assert forall|i1: int, i2: int|
                0 <= i1 < self.sched_queue().len() && 0 <= i2 < self.sched_queue().len() && i1
                    != i2 implies #[trigger] self.sched_queue()[i1]
                != #[trigger] self.sched_queue()[i2] by {
                if i1 < q0.len() && i2 == q0.len() as int {
                    assert(q0.contains(q0[i1]));
                }
                if i2 < q0.len() && i1 == q0.len() as int {
                    assert(q0.contains(q0[i2]));
                }
            }
        }
    }

    /// Terminate the current thread: it leaves the scheduler, the
    /// current slot, and the thread table — its resources unwind with
    /// the record. Its identifier never comes back: no rotation of the
    /// remaining queue reintroduces it.
    pub fn kill_current_thread(&mut self)
        requires
            old(self).wf(),
            old(self).spec_current() matches Some(c) && old(self).sched_queue().contains(c),
        ensures
            final(self).wf(),
            final(self).spec_current() is None,
            !final(self).has_thread(old(self).spec_current()->0),
            !final(self).sched_queue().contains(old(self).spec_current()->0),
            forall|t: u64|
                t != old(self).spec_current()->0 ==> (final(self).sched_queue().contains(t)
                    <==> old(self).sched_queue().contains(t)),
            forall|t: u64|
                t != old(self).spec_current()->0 ==> (final(self).has_thread(t) <==> old(
                    self,
                ).has_thread(t)),
            forall|t: u64|
                t != old(self).spec_current()->0 && old(self).has_thread(t)
                    ==> #[trigger] final(self).thread_of(t) == old(self).thread_of(t),
            final(self).sleeping() == old(self).sleeping(),
    {
        let c = self.current_thread.unwrap();
        let k = self.find_thread(c);
        let ghost threads0 = self.threads@;
        self.threads.remove(k);
        self.current_thread = None;
        proof {
            let q = old(self).sched_queue();
            assert forall|i1: int, i2: int|
                0 <= i1 < q.len() && 0 <= i2 < q.len() && (#[trigger] q[i1]) == c && (
            #[trigger] q[i2]) == c implies i1 == i2 by {}
        }
        self.scheduler.remove_thread(c);
        proof {
            let q0 = old(self).sched_queue();
            let i = choose|i: int| 0 <= i < q0.len() && q0[i] == c;
            assert(self.sched_queue() == q0.remove(i));
            crate::algo::lemma_remove_once(q0, c, i);
            crate::algo::lemma_remove_keeps_distinct(q0, i);
            // The thread table lost exactly the record of `c`.
            let ki = k as int;
            assert(self.spec_threads() == threads0.remove(ki));
            assert(!self.has_thread(c)) by {
                if self.has_thread(c) {
                    let j = choose|j: int|
                        0 <= j < self.spec_threads().len() && (#[trigger] self.spec_threads()[
                            j
                        ]).id.0 == c;
                    if j < ki {
                        assert(threads0[j].id.0 == c);
                    } else {
                        assert(threads0[j + 1].id.0 == c);
                    }
                }
            }
            assert forall|t: u64|
                t != c implies (self.has_thread(t) <==> old(self).has_thread(t)) by {
                if self.has_thread(t) {
                    let j = choose|j: int|
                        0 <= j < self.spec_threads().len() && (#[trigger] self.spec_threads()[
                            j
                        ]).id.0 == t;
                    if j < ki {
                        assert(threads0[j].id.0 == t);
                    } else {
                        assert(threads0[j + 1].id.0 == t);
                    }
                    assert(old(self).has_thread(t));
                }
                if old(self).has_thread(t) {
                    let j = choose|j: int|
                        0 <= j < threads0.len() && (#[trigger] threads0[j]).id.0 == t;
                    assert(j != ki);
                    if j < ki {
                        assert(self.spec_threads()[j].id.0 == t);
                    } else {
                        assert(self.spec_threads()[j - 1].id.0 == t);
                    }
                }
            }
            assert forall|j1: int, j2: int|
                0 <= j1 < self.spec_threads().len() && 0 <= j2 < self.spec_threads().len()
                    && j1 != j2 implies (#[trigger] self.spec_threads()[j1]).id.0 != (
            #[trigger] self.spec_threads()[j2]).id.0 by {
                let y1: int = if j1 < ki { j1 } else { j1 + 1 };
                let y2: int = if j2 < ki { j2 } else { j2 + 1 };
                assert(self.spec_threads()[j1] == threads0[y1]);
                assert(self.spec_threads()[j2] == threads0[y2]);
            }
            assert forall|t: u64|
                t != c && old(self).has_thread(t) implies #[trigger] self.thread_of(t)
                == old(self).thread_of(t) by {
                let jo = old(self).thread_index(t);
                assert(threads0[jo].id.0 == t);
                assert(jo != ki);
                let jn: int = if jo < ki { jo } else { jo - 1 };
                assert(self.spec_threads()[jn] == threads0[jo]);
                assert(self.spec_threads()[jn].id.0 == t);
                assert(self.thread_index(t) == jn);
            }
            assert forall|x: int|
                0 <= x < self.sched_queue().len() implies self.has_thread(
                #[trigger] self.sched_queue()[x],
            ) by {
                let t = self.sched_queue()[x];
                assert(self.sched_queue().contains(t));
                assert(t != c);
                assert(q0.contains(t));
                let y = choose|y: int| 0 <= y < q0.len() && q0[y] == t;
                assert(old(self).has_thread(q0[y]));
            }
            assert forall|j: int|
                0 <= j < self.spec_threads().len() && Some(
                    (#[trigger] self.spec_threads()[j]).id.0,
                ) != self.spec_current() implies self.spec_threads()[j].context is Some by {
                let y: int = if j < ki { j } else { j + 1 };
                assert(self.spec_threads()[j] == threads0[y]);
                assert(threads0[y].id.0 != c);
            }
        }
    }
}

} // verus!
