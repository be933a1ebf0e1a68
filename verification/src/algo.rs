//! Thread scheduling policies.
//!
//! A scheduler keeps a pool of thread identifiers. After every time
//! slice the processor asks `get_next` for the thread that should run
//! next; a finished thread is taken out with `remove_thread` before the
//! next `get_next`. The default policy is FIFO round-robin; the
//! alternative is highest-response-ratio-next (HRRN).

use vstd::prelude::*;

verus! {

/// A pool of schedulable thread identifiers.
pub trait Scheduler {
    /// The threads currently in the pool, in insertion order.
    spec fn queue(&self) -> Seq<u64>;

    /// What the policy needs of its own bookkeeping before it can pick
    /// a thread.
    spec fn wf(&self) -> bool;

    /// Add a thread to the pool.
    fn add_thread(&mut self, thread: u64, priority: u64)
        ensures
            final(self).queue() == old(self).queue().push(thread),
    ;

    /// Pick the thread for the next time slice; it may be the one that
    /// just ran. Returns nothing exactly when the pool is empty.
    fn get_next(&mut self) -> (r: Option<u64>)
        requires
            old(self).wf(),
        ensures
            r matches Some(t) ==> old(self).queue().contains(t),
            r is None <==> old(self).queue().len() == 0,
            forall|t: u64|
                final(self).queue().contains(t) <==> old(self).queue().contains(t),
    ;

    /// Take a thread out of the pool. The thread must be present exactly
    /// once; afterwards it is gone and every other thread is untouched.
    fn remove_thread(&mut self, thread: u64)
        requires
            old(self).queue().contains(thread),
            forall|i: int, j: int|
                0 <= i < old(self).queue().len() && 0 <= j < old(self).queue().len()
                    && (#[trigger] old(self).queue()[i]) == thread
                    && (#[trigger] old(self).queue()[j]) == thread ==> i == j,
        ensures
            forall|i: int|
                0 <= i < old(self).queue().len() && old(self).queue()[i] == thread
                    ==> final(self).queue() == old(self).queue().remove(i),
            !final(self).queue().contains(thread),
    ;

    /// Record a priority hint for a thread.
    fn set_priority(&mut self, thread: u64, priority: u64)
        ensures
            final(self).queue() == old(self).queue(),
    ;
}

/// The scheduling policy the processor uses.
pub type SchedulerImpl = FifoScheduler;

/// One round of FIFO rotation: the head moves to the back.
pub open spec fn fifo_rotate(s: Seq<u64>) -> Seq<u64> {
    s.skip(1).push(s[0])
}

/// The queue after `n` rounds of FIFO rotation.
pub open spec fn fifo_rotate_n(s: Seq<u64>, n: nat) -> Seq<u64>
    decreases n,
{
    if n == 0 {
        s
    } else {
        fifo_rotate(fifo_rotate_n(s, (n - 1) as nat))
    }
}

/// FIFO round-robin scheduler: threads run in insertion order, over and
/// over.
pub struct FifoScheduler {
    pool: Vec<u64>,
}

impl FifoScheduler {
    /// An empty scheduler.
    pub fn new() -> (r: FifoScheduler)
        ensures
            r.queue() == Seq::<u64>::empty(),
    {
        FifoScheduler { pool: Vec::new() }
    }
}

impl Default for FifoScheduler {
    /// An empty scheduler.
    fn default() -> (r: FifoScheduler)
        ensures
            r.queue() == Seq::<u64>::empty(),
    {
        FifoScheduler::new()
    }
}

impl Scheduler for FifoScheduler {
    closed spec fn queue(&self) -> Seq<u64> {
        self.pool@
    }

    open spec fn wf(&self) -> bool {
        true
    }

    fn add_thread(&mut self, thread: u64, priority: u64) {
        self.pool.push(thread);
    }

    /// The head of the queue runs and goes to the back.
    fn get_next(&mut self) -> (r: Option<u64>)
        ensures
            old(self).queue().len() == 0 ==> r is None
                && final(self).queue() == old(self).queue(),
            old(self).queue().len() > 0 ==> r == Some(old(self).queue()[0])
                && final(self).queue() == fifo_rotate(old(self).queue()),
    {
        if self.pool.len() == 0 {
            return None;
        }
        let head = self.pool.remove(0);
        self.pool.push(head);
        proof {
            assert(old(self).queue().contains(old(self).queue()[0]));
            assert forall|t: u64|
                self.queue().contains(t) <==> old(self).queue().contains(t) by {
                lemma_rotate_contains(old(self).queue(), t);
            }
        }
        Some(head)
    }

    #[verifier::loop_isolation(false)]
    fn remove_thread(&mut self, thread: u64) {
        let mut i: usize = 0;
        while i < self.pool.len()
            invariant
                i <= self.pool@.len(),
                self.pool@ == old(self).queue(),
                forall|k: int| 0 <= k < i ==> self.pool@[k] != thread,
                self.pool@.contains(thread),
            decreases self.pool@.len() - i,
        {
            if self.pool[i] == thread {
                let ghost q = self.pool@;
                self.pool.remove(i);
                proof {
                    assert(q == old(self).queue());
                    assert(q[i as int] == thread);
                    assert forall|j: int|
                        0 <= j < q.len() && q[j] == thread implies self.queue()
                        == q.remove(j) by {
                        assert(old(self).queue()[j] == thread);
                        assert(old(self).queue()[i as int] == thread);
                        assert(j == i as int);
                    }
                    lemma_remove_once(q, thread, i as int);
                }
                return;
            }
            i = i + 1;
        }
        proof {
            let k = choose|k: int| 0 <= k < self.pool@.len() && self.pool@[k] == thread;
            assert(false);
        }
    }

    fn set_priority(&mut self, thread: u64, priority: u64) {
    }
}

/// Rotating a FIFO queue keeps exactly the same members.
pub proof fn lemma_rotate_contains(s: Seq<u64>, t: u64)
    requires
        s.len() > 0,
    ensures
        fifo_rotate(s).contains(t) <==> s.contains(t),
{
    let r = fifo_rotate(s);
    if s.contains(t) {
        let i = choose|i: int| 0 <= i < s.len() && s[i] == t;
        if i == 0 {
            assert(r[r.len() - 1] == t);
        } else {
            assert(r[i - 1] == t);
        }
        assert(r.contains(t));
    }
    if r.contains(t) {
        let i = choose|i: int| 0 <= i < r.len() && r[i] == t;
        if i == r.len() - 1 {
            assert(s[0] == t);
        } else {
            assert(s[i + 1] == t);
        }
        assert(s.contains(t));
    }
}

/// Removing the sole occurrence of `c` from a queue: `c` is gone and
/// every other member stays.
pub proof fn lemma_remove_once(q: Seq<u64>, c: u64, i: int)
    requires
        0 <= i < q.len(),
        q[i] == c,
        forall|i1: int, i2: int|
            0 <= i1 < q.len() && 0 <= i2 < q.len() && (#[trigger] q[i1]) == c && (
            #[trigger] q[i2]) == c ==> i1 == i2,
    ensures
        !q.remove(i).contains(c),
        forall|t: u64| t != c ==> (q.remove(i).contains(t) <==> q.contains(t)),
    decreases q.len(),
{
    let r = q.remove(i);
    assert(!r.contains(c)) by {
        if r.contains(c) {
            let x = choose|x: int| 0 <= x < r.len() && r[x] == c;
            if x < i {
                assert(q[x] == c);
            } else {
                assert(q[x + 1] == c);
            }
        }
    }
    assert forall|t: u64| t != c && r.contains(t) implies q.contains(t) by {
        let x = choose|x: int| 0 <= x < r.len() && r[x] == t;
        if x < i {
            assert(q[x] == t);
        } else {
            assert(q[x + 1] == t);
        }
    }
    assert forall|t: u64| t != c && q.contains(t) implies r.contains(t) by {
        let x = choose|x: int| 0 <= x < q.len() && q[x] == t;
        if x < i {
            assert(r[x] == t);
        } else {
            assert(r[x - 1] == t);
        }
    }
}

/// Removing an element of a duplicate-free queue leaves it duplicate
/// free.
pub proof fn lemma_remove_keeps_distinct(q: Seq<u64>, i: int)
    requires
        0 <= i < q.len(),
        forall|i1: int, i2: int|
            0 <= i1 < q.len() && 0 <= i2 < q.len() && i1 != i2 ==> #[trigger] q[i1]
                != #[trigger] q[i2],
    ensures
        forall|i1: int, i2: int|
            0 <= i1 < q.remove(i).len() && 0 <= i2 < q.remove(i).len() && i1 != i2
                ==> #[trigger] q.remove(i)[i1] != #[trigger] q.remove(i)[i2],
{
    let r = q.remove(i);
    assert forall|i1: int, i2: int|
        0 <= i1 < r.len() && 0 <= i2 < r.len() && i1 != i2 implies #[trigger] r[i1]
        != #[trigger] r[i2] by {
        let y1: int = if i1 < i { i1 } else { i1 + 1 };
        let y2: int = if i2 < i { i2 } else { i2 + 1 };
        assert(r[i1] == q[y1]);
        assert(r[i2] == q[y2]);
    }
}

/// Round-robin law: starting from queue `s`, the thread handed out by
/// the `n + 1`-th call of `FifoScheduler::get_next` is `s[n % s.len()]`
/// — the threads run in insertion order, cyclically.
pub proof fn lemma_fifo_round_robin(s: Seq<u64>, n: nat)
    requires
        s.len() > 0,
    ensures
        fifo_rotate_n(s, n).len() == s.len(),
        fifo_rotate_n(s, n)[0] == s[n as int % s.len() as int],
    decreases n,
{
    if n == 0 {
    } else {
        lemma_fifo_round_robin(s, (n - 1) as nat);
        let prev = fifo_rotate_n(s, (n - 1) as nat);
        lemma_rotate_shifts(s, (n - 1) as nat);
        lemma_rotate_shifts(s, n);
        if s.len() == 1 {
            assert(fifo_rotate_n(s, n)[0] == s[0]);
            assert(n as int % 1int == 0);
        } else {
            assert(fifo_rotate_n(s, n)[0] == prev[1]);
            assert(prev[1] == s[(n - 1 + 1) % s.len() as int]);
        }
    }
}

/// After `n` rotations, position `i` of the queue holds the thread that
/// started at position `(i + n) mod len`.
pub proof fn lemma_rotate_shifts(s: Seq<u64>, n: nat)
    requires
        s.len() > 0,
    ensures
        fifo_rotate_n(s, n).len() == s.len(),
        forall|i: int|
            0 <= i < s.len() ==> fifo_rotate_n(s, n)[i] == s[(i + n) % s.len() as int],
    decreases n,
{
    let len = s.len() as int;
    if n == 0 {
        assert forall|i: int| 0 <= i < len implies fifo_rotate_n(s, n)[i]
            == s[(i + n) % len] by {
            assert(i % len == i) by (nonlinear_arith)
                requires 0 <= i < len,
            ;
        }
    } else {
        lemma_rotate_shifts(s, (n - 1) as nat);
        let prev = fifo_rotate_n(s, (n - 1) as nat);
        assert forall|i: int| 0 <= i < len implies fifo_rotate_n(s, n)[i]
            == s[(i + n) % len] by {
            if i < len - 1 {
                assert(fifo_rotate(prev)[i] == prev[i + 1]);
                assert(prev[i + 1] == s[(i + 1 + n - 1) % len]);
            } else {
                assert(fifo_rotate(prev)[i] == prev[0]);
                assert(prev[0] == s[(n - 1) % len]);
                assert((len - 1 + n) % len == (n - 1) % len) by (nonlinear_arith)
                    requires len > 0, n >= 1,
                ;
            }
        }
    }
}

/// A removed thread never comes back: if it is not in the queue, no
/// amount of FIFO rotation makes it reappear, so `get_next` never
/// returns it again.
pub proof fn lemma_fifo_removed_stays_out(s: Seq<u64>, t: u64, n: nat)
    requires
        s.len() > 0,
        !s.contains(t),
    ensures
        !fifo_rotate_n(s, n).contains(t),
        fifo_rotate_n(s, n)[0] != t,
    decreases n,
{
    if n == 0 {
        assert(s[0] != t) by {
            if s[0] == t {
                assert(s.contains(t));
            }
        }
    } else {
        lemma_fifo_removed_stays_out(s, t, (n - 1) as nat);
        lemma_rotate_shifts(s, (n - 1) as nat);
        lemma_rotate_contains(fifo_rotate_n(s, (n - 1) as nat), t);
        let r = fifo_rotate_n(s, n);
        assert(r[0] != t) by {
            if r[0] == t {
                assert(r.contains(t));
            }
        }
    }
}

/// One thread in the HRRN pool, with its scheduling bookkeeping.
#[derive(Clone, Copy, Debug, PartialEq, Eq, Structural)]
pub struct HrrnThread {
    /// Value of the scheduler clock when the thread entered the pool.
    pub birth_time: u64,
    /// How many time slices the thread has been handed.
    pub service_count: u64,
    /// The thread itself.
    pub thread: u64,
}

/// The divisor of the response ratio: `max(service_count, 1)`, so that
/// an unserved thread divides by one rather than by zero.
pub open spec fn service_weight(s: u64) -> int {
    if s == 0 {
        1int
    } else {
        s as int
    }
}

/// Whether `a`'s response ratio `(t - birth) / max(service, 1)` is
/// strictly higher than `b`'s at clock `t`, compared by
/// cross-multiplication to stay integral.
pub open spec fn hrrn_gt(a: HrrnThread, b: HrrnThread, t: int) -> bool {
    (t - a.birth_time) * service_weight(b.service_count) > (t - b.birth_time) * service_weight(
        a.service_count,
    )
}

/// Index of the pool entry HRRN picks at clock `t`: the first entry
/// with the highest response ratio.
pub open spec fn hrrn_best_index(s: Seq<HrrnThread>, t: int) -> int
    decreases s.len(),
{
    if s.len() <= 1 {
        0
    } else {
        let b = hrrn_best_index(s.drop_last(), t);
        if hrrn_gt(s.last(), s[b], t) {
            s.len() - 1
        } else {
            b
        }
    }
}

/// Highest-response-ratio-next scheduler: a virtual clock advances on
/// every `get_next`, and the thread maximizing
/// `(clock - birth) / max(service, 1)` runs, first maximum winning.
pub struct HrrnScheduler {
    current_time: u64,
    pool: Vec<HrrnThread>,
}

impl HrrnScheduler {
    /// The pool, with each thread's bookkeeping.
    pub closed spec fn entries(&self) -> Seq<HrrnThread> {
        self.pool@
    }

    /// The scheduler clock, in `get_next` calls.
    pub closed spec fn spec_time(&self) -> int {
        self.current_time as int
    }

    /// Births and service counts never run ahead of the clock.
    pub open spec fn bounds_ok(&self) -> bool {
        forall|k: int|
            0 <= k < self.entries().len() ==> (#[trigger] self.entries()[k]).birth_time
                <= self.spec_time() && self.entries()[k].service_count <= self.spec_time()
    }

    /// An empty scheduler with the clock at zero.
    pub fn new() -> (r: HrrnScheduler)
        ensures
            r.entries() == Seq::<HrrnThread>::empty(),
            r.spec_time() == 0,
            r.bounds_ok(),
    {
        HrrnScheduler { current_time: 0, pool: Vec::new() }
    }
}

impl Default for HrrnScheduler {
    /// An empty scheduler with the clock at zero.
    fn default() -> (r: HrrnScheduler)
        ensures
            r.entries() == Seq::<HrrnThread>::empty(),
            r.spec_time() == 0,
            r.bounds_ok(),
    {
        HrrnScheduler::new()
    }
}

impl Scheduler for HrrnScheduler {
    open spec fn queue(&self) -> Seq<u64> {
        self.entries().map_values(|h: HrrnThread| h.thread)
    }

    open spec fn wf(&self) -> bool {
        self.bounds_ok() && self.spec_time() < u64::MAX
    }

    /// The thread enters with the current clock as birth time and no
    /// service yet.
    fn add_thread(&mut self, thread: u64, priority: u64)
        ensures
            final(self).entries() == old(self).entries().push(
                HrrnThread {
                    birth_time: old(self).spec_time() as u64,
                    service_count: 0,
                    thread,
                },
            ),
            final(self).spec_time() == old(self).spec_time(),
            old(self).bounds_ok() ==> final(self).bounds_ok(),
    {
        let entry = HrrnThread {
            birth_time: self.current_time,
            service_count: 0,
            thread,
        };
        self.pool.push(entry);
        proof {
            assert(self.queue() =~= old(self).queue().push(thread));
        }
    }

    /// Advance the clock, then run the first thread with the highest
    /// response ratio, charging it one service.
    fn get_next(&mut self) -> (r: Option<u64>)
        ensures
            final(self).spec_time() == old(self).spec_time() + 1,
            final(self).bounds_ok(),
            old(self).entries().len() == 0 ==> r is None
                && final(self).entries() == old(self).entries(),
            old(self).entries().len() > 0 ==> ({
                let b = hrrn_best_index(old(self).entries(), old(self).spec_time() + 1);
                let e = old(self).entries()[b];
                r == Some(e.thread) && final(self).entries() == old(self).entries().update(
                    b,
                    HrrnThread {
                        birth_time: e.birth_time,
                        service_count: (e.service_count + 1) as u64,
                        thread: e.thread,
                    },
                )
            }),
    {
        self.current_time = self.current_time + 1;
        let t = self.current_time;
        if self.pool.len() == 0 {
            return None;
        }
        let ghost entries0 = self.pool@;
        let mut best: usize = 0;
        let mut k: usize = 1;
        proof {
            assert(entries0.take(1).len() == 1);
            assert(hrrn_best_index(entries0.take(1), t as int) == 0);
        }
        while k < self.pool.len()
            invariant
                self.pool@ == entries0,
                entries0.len() > 0,
                1 <= k <= entries0.len(),
                best < k,
                best == hrrn_best_index(entries0.take(k as int), t as int),
                forall|j: int|
                    0 <= j < entries0.len() ==> (#[trigger] entries0[j]).birth_time <= t,
            decreases entries0.len() - k,
        {
            let cand = self.pool[k];
            let cur = self.pool[best];
            proof {
                assert(entries0[k as int].birth_time <= t);
                assert(entries0[best as int].birth_time <= t);
            }
            let cand_wait: u64 = t - cand.birth_time;
            let cur_wait: u64 = t - cur.birth_time;
            let cand_weight: u64 = if cand.service_count == 0 {
                1
            } else {
                cand.service_count
            };
            let cur_weight: u64 = if cur.service_count == 0 {
                1
            } else {
                cur.service_count
            };
            proof {
                lemma_u64_mul_fits(cand_wait, cur_weight);
                lemma_u64_mul_fits(cur_wait, cand_weight);
            }
            let strictly_better = (cand_wait as u128) * (cur_weight as u128) > (
            cur_wait as u128) * (cand_weight as u128);
            proof {
                let taken = entries0.take(k as int + 1);
                assert(taken.drop_last() =~= entries0.take(k as int));
                assert(taken.last() == entries0[k as int]);
                lemma_hrrn_best_in_range(entries0.take(k as int), t as int);
                assert(strictly_better == hrrn_gt(entries0[k as int], entries0[
                    hrrn_best_index(entries0.take(k as int), t as int)
                ], t as int));
            }
            if strictly_better {
                best = k;
            }
            k = k + 1;
        }
        proof {
            assert(entries0.take(entries0.len() as int) =~= entries0);
            lemma_hrrn_best_in_range(entries0, t as int);
        }
        let e = self.pool[best];
        let updated = HrrnThread {
            birth_time: e.birth_time,
            service_count: e.service_count + 1,
            thread: e.thread,
        };
        self.pool[best] = updated;
        proof {
            assert forall|u: u64|
                self.queue().contains(u) <==> old(self).queue().contains(u) by {
                let qn = self.queue();
                let qo = old(self).queue();
                assert(qn.len() == qo.len());
                assert forall|j: int| 0 <= j < qo.len() implies qn[j] == qo[j] by {}
                assert(qn =~= qo);
            }
            assert(old(self).queue()[best as int] == e.thread);
            assert(old(self).queue().contains(e.thread));
        }
        Some(e.thread)
    }

    #[verifier::loop_isolation(false)]
    /// The one entry carrying `thread` leaves the pool; the others keep
    /// their birth times and service counts unchanged.
    fn remove_thread(&mut self, thread: u64)
        ensures
            final(self).spec_time() == old(self).spec_time(),
            old(self).bounds_ok() ==> final(self).bounds_ok(),
            forall|i: int|
                0 <= i < old(self).entries().len() && (#[trigger] old(self).entries()[
                    i
                ]).thread == thread ==> final(self).entries() == old(self).entries().remove(i),
    {
        let ghost q0 = self.queue();
        let mut i: usize = 0;
        while i < self.pool.len()
            invariant
                i <= self.pool@.len(),
                self.pool@ == old(self).entries(),
                self.spec_time() == old(self).spec_time(),
                forall|k: int| 0 <= k < i ==> (#[trigger] self.pool@[k]).thread != thread,
                self.queue().contains(thread),
                self.queue() == q0,
            decreases self.pool@.len() - i,
        {
            if self.pool[i].thread == thread {
                let ghost pool0 = self.pool@;
                self.pool.remove(i);
                proof {
                    assert(self.spec_time() == old(self).spec_time());
                    if old(self).bounds_ok() {
                        assert forall|m: int|
                            0 <= m < self.entries().len() implies (#[trigger] self.entries()[
                            m
                        ]).birth_time <= self.spec_time() && self.entries()[m].service_count
                            <= self.spec_time() by {
                            if m < i {
                                assert(self.entries()[m] == pool0[m]);
                            } else {
                                assert(self.entries()[m] == pool0[m + 1]);
                            }
                        }
                    }
                    assert(q0[i as int] == pool0[i as int].thread);
                    assert forall|x: int|
                        0 <= x < self.queue().len() implies self.queue()[x] == q0.remove(
                        i as int,
                    )[x] by {
                        assert(self.pool@[x] == pool0.remove(i as int)[x]);
                    }
                    assert(self.queue() =~= q0.remove(i as int));
                    assert(q0 == old(self).queue());
                    assert forall|j: int|
                        0 <= j < q0.len() && q0[j] == thread implies self.queue()
                        == q0.remove(j) by {
                        assert(old(self).queue()[j] == thread);
                        assert(old(self).queue()[i as int] == thread);
                        assert(j == i as int);
                    }
                    assert(!self.queue().contains(thread)) by {
                        if self.queue().contains(thread) {
                            let k = choose|k: int|
                                0 <= k < self.queue().len() && self.queue()[k]
                                    == thread;
                            if k < i {
                                assert(old(self).queue()[k] == thread);
                                assert(old(self).queue()[i as int] == thread);
                                assert(k == i as int);
                            } else {
                                assert(old(self).queue()[k + 1] == thread);
                                assert(old(self).queue()[i as int] == thread);
                                assert(k + 1 == i as int);
                            }
                        }
                    }
                    assert forall|j: int|
                        0 <= j < pool0.len() && (#[trigger] pool0[j]).thread
                            == thread implies self.entries() == pool0.remove(j) by {
                        assert(old(self).queue()[j] == thread);
                        assert(old(self).queue()[i as int] == thread);
                        assert(j == i as int);
                    }
                }
                return;
            }
            proof {
                assert(self.queue()[i as int] == self.pool@[i as int].thread);
            }
            i = i + 1;
        }
        proof {
            let k = choose|k: int| 0 <= k < q0.len() && q0[k] == thread;
            assert(self.pool@[k].thread == thread);
            assert(false);
        }
    }

    fn set_priority(&mut self, thread: u64, priority: u64) {
    }
}

/// The product of two 64-bit values always fits a 128-bit machine word.
proof fn lemma_u64_mul_fits(a: u64, b: u64)
    ensures
        a as int * b as int <= u128::MAX,
{
    assert(a as int * b as int <= 0xFFFF_FFFF_FFFF_FFFF * 0xFFFF_FFFF_FFFF_FFFF)
        by (nonlinear_arith)
        requires
            0 <= a <= 0xFFFF_FFFF_FFFF_FFFF,
            0 <= b <= 0xFFFF_FFFF_FFFF_FFFF,
    ;
}

/// The index HRRN picks is a position in the pool.
pub proof fn lemma_hrrn_best_in_range(s: Seq<HrrnThread>, t: int)
    requires
        s.len() > 0,
    ensures
        0 <= hrrn_best_index(s, t) < s.len(),
    decreases s.len(),
{
    if s.len() > 1 {
        lemma_hrrn_best_in_range(s.drop_last(), t);
    }
}

/// The entry HRRN picks has a response ratio at least as high as every
/// entry of the pool: no entry beats it strictly.
pub proof fn lemma_hrrn_best_is_max(s: Seq<HrrnThread>, t: int)
    requires
        s.len() > 0,
        forall|k: int| 0 <= k < s.len() ==> (#[trigger] s[k]).birth_time <= t,
    ensures
        0 <= hrrn_best_index(s, t) < s.len(),
        forall|j: int|
            0 <= j < s.len() ==> !hrrn_gt(#[trigger] s[j], s[hrrn_best_index(s, t)], t),
    decreases s.len(),
{
    lemma_hrrn_best_in_range(s, t);
    if s.len() > 1 {
        assert forall|k: int|
            0 <= k < s.drop_last().len() implies (#[trigger] s.drop_last()[k]).birth_time
            <= t by {
            assert(s.drop_last()[k] == s[k]);
        }
        lemma_hrrn_best_is_max(s.drop_last(), t);
        let b0 = hrrn_best_index(s.drop_last(), t);
        let b = hrrn_best_index(s, t);
        assert forall|j: int| 0 <= j < s.len() implies !hrrn_gt(#[trigger] s[j], s[b], t) by {
            if j < s.len() - 1 {
                assert(s.drop_last()[j] == s[j]);
                assert(s.drop_last()[b0] == s[b0]);
                assert(!hrrn_gt(s[j], s[b0], t));
                if hrrn_gt(s.last(), s[b0], t) {
                    if hrrn_gt(s[j], s[b], t) {
                        lemma_hrrn_gt_trans(s[j], s.last(), s[b0], t);
                    }
                }
            } else {
                if !hrrn_gt(s.last(), s[b0], t) {
                }
            }
        }
    }
}

/// Strictly-higher response ratio is transitive: if `a` beats `b` and
/// `b` beats `c`, then `a` beats `c`. Needs every birth to lie at or
/// before the clock, which the scheduler maintains.
proof fn lemma_hrrn_gt_trans(a: HrrnThread, b: HrrnThread, c: HrrnThread, t: int)
    requires
        hrrn_gt(a, b, t),
        hrrn_gt(b, c, t),
        a.birth_time <= t,
        b.birth_time <= t,
        c.birth_time <= t,
    ensures
        hrrn_gt(a, c, t),
{
    let ta = t - a.birth_time;
    let tb = t - b.birth_time;
    let tc = t - c.birth_time;
    let wa = service_weight(a.service_count);
    let wb = service_weight(b.service_count);
    let wc = service_weight(c.service_count);
    assert(ta * wb > tb * wa);
    assert(tb * wc > tc * wb);
    assert(1 <= wa && 1 <= wb && 1 <= wc);
    if tb == 0 {
        assert(tb * wc == 0) by (nonlinear_arith)
            requires tb == 0,
        ;
        assert(tc * wb >= 0) by (nonlinear_arith)
            requires tc >= 0, wb >= 0,
        ;
        assert(false);
    } else {
        assert((ta * wb) * (tb * wc) > (tb * wa) * (tc * wb)) by (nonlinear_arith)
            requires
                ta * wb > tb * wa,
                tb * wc > tc * wb,
                tb * wa >= 0,
                tc * wb >= 0,
                tb * wc > 0,
        ;
        assert((ta * wb) * (tb * wc) == (tb * wb) * (ta * wc)) by (nonlinear_arith);
        assert((tb * wa) * (tc * wb) == (tb * wb) * (tc * wa)) by (nonlinear_arith);
        assert(ta * wc > tc * wa) by (nonlinear_arith)
            requires
                (tb * wb) * (ta * wc) > (tb * wb) * (tc * wa),
                tb > 0,
                wb > 0,
        ;
    }
}

/// Preference law: at the same clock, a thread with strictly fewer
/// services and a strictly earlier birth always beats a thread with more
/// services and a later birth, so HRRN never picks the latter.
pub proof fn lemma_hrrn_prefers(s: Seq<HrrnThread>, i: int, j: int, t: int)
    requires
        0 <= i < s.len(),
        0 <= j < s.len(),
        s[i].birth_time < s[j].birth_time,
        s[i].service_count < s[j].service_count,
        forall|k: int| 0 <= k < s.len() ==> (#[trigger] s[k]).birth_time < t,
    ensures
        hrrn_gt(s[i], s[j], t),
        hrrn_best_index(s, t) != j,
{
    let a = s[i];
    let b = s[j];
    let wa = service_weight(a.service_count);
    let wb = service_weight(b.service_count);
    assert(1 <= wa && wa <= wb) by {
        if a.service_count == 0 {
            assert(b.service_count >= 1);
        }
    }
    assert((t - a.birth_time) * wb > (t - b.birth_time) * wa) by (nonlinear_arith)
        requires
            t - a.birth_time >= t - b.birth_time + 1,
            t - b.birth_time >= 1,
            1 <= wa <= wb,
    ;
    assert(hrrn_gt(a, b, t));
    assert forall|k: int| 0 <= k < s.len() implies (#[trigger] s[k]).birth_time <= t by {}
    lemma_hrrn_best_is_max(s, t);
    let best = hrrn_best_index(s, t);
    if best == j {
        assert(!hrrn_gt(s[i], s[j], t));
    }
}

} // verus!
