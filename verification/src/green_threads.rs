//! A cooperative round-robin scheduler for green threads.
//!
//! The scheduler keeps a table of threads: the main thread at index 0 and each spawned thread
//! after it, each with its saved registers, its state, its stack and, until it first runs, the
//! function it is to start. Its decisions stand here: which thread runs next, which state each
//! thread moves to, and when every spawned thread has finished. Switching the machine's
//! registers from one thread to the next is assembly, done by the caller with the contexts
//! that `context_mut` and `context` hand out, as a `Dispatch` says.
//!
//! The entry of a thread is held as a value of the type parameter `E` (a function pointer in
//! practice): the scheduler only stores it and hands it out once.
use vstd::prelude::*;
use crate::stack::{align_down_16, align_down_16_usize, buffer_address};

pub use crate::coroutine::TaskContext;

verus! {

/// The size in bytes of a green thread's stack.
pub const STACK_SIZE: usize = 1024 * 128;

/// Where a thread stands in its life.
#[derive(Debug, Clone, Copy, PartialEq, Eq, Structural)]
pub enum ThreadState {
    Ready,
    Running,
    Finished,
}

struct GreenThread<E> {
    state: ThreadState,
    stack: Option<Vec<u8>>,
    stack_base: Option<usize>,
    entry: Option<E>,
}

/// What the scheduler holds of one thread: its saved registers, its state, the bytes of its
/// stack and the address of the stack's first byte (none for the main thread), and its entry,
/// until that has been handed out.
pub struct ThreadView<E> {
    pub ctx: TaskContext,
    pub state: ThreadState,
    pub stack: Option<Seq<u8>>,
    pub stack_base: Option<int>,
    pub entry: Option<E>,
}

impl<E> GreenThread<E> {
    spec fn view_with(&self, ctx: TaskContext) -> ThreadView<E> {
        ThreadView {
            ctx,
            state: self.state,
            stack: match self.stack {
                Some(s) => Some(s@),
                None => None,
            },
            stack_base: match self.stack_base {
                Some(b) => Some(b as int),
                None => None,
            },
            entry: self.entry,
        }
    }
}

/// What `schedule_next` decided: the thread to switch away from, the thread to switch to, and
/// the entry of the latter when it runs for the first time. When `from == to` no switch is
/// needed.
pub struct Dispatch<E> {
    pub from: usize,
    pub to: usize,
    pub entry: Option<E>,
}

/// The scheduler: the thread table, the saved registers of each thread (kept apart so that a
/// context can be lent out for a switch without touching the rest of the table), and the index
/// of the thread that runs now.
pub struct Scheduler<E> {
    threads: Vec<GreenThread<E>>,
    contexts: Vec<TaskContext>,
    current: usize,
}

/// The index `k` places after `c` in a cyclic walk over `n` threads, for `0 <= k <= n`.
pub open spec fn rotate(c: int, k: int, n: int) -> int {
    if c + k < n {
        c + k
    } else {
        c + k - n
    }
}

/// How many places after `c` the thread `t` comes in a cyclic walk over `n` threads, between
/// 1 and `n` (`n` for `c` itself).
pub open spec fn distance(c: int, t: int, n: int) -> int {
    if c < t {
        t - c
    } else {
        t - c + n
    }
}

/// `t` is the first ready thread met when walking the table cyclically from the thread after
/// `c` round to `c` itself.
pub open spec fn is_first_ready_after<E>(threads: Seq<ThreadView<E>>, c: int, t: int) -> bool {
    &&& 0 <= t < threads.len()
    &&& threads[t].state == ThreadState::Ready
    &&& forall|k: int|
        1 <= k < distance(c, t, threads.len() as int)
            ==> #[trigger] threads[rotate(c, k, threads.len() as int)].state != ThreadState::Ready
}

/// The table after switching from `c` to `t`: `c` is ready again unless it has finished, `t`
/// runs, and `t`'s entry has been handed out.
pub open spec fn dispatched<E>(threads: Seq<ThreadView<E>>, c: int, t: int) -> Seq<ThreadView<E>> {
    let paused = if threads[c].state == ThreadState::Finished {
        threads[c]
    } else {
        ThreadView { state: ThreadState::Ready, ..threads[c] }
    };
    let after = threads.update(c, paused);
    after.update(t, ThreadView { state: ThreadState::Running, entry: None, ..after[t] })
}

/// One scheduling decision from the table `threads` with `c` running: either nothing changes
/// and no switch is made (a lone thread, or no ready thread at all), or the first ready thread
/// after `c` is dispatched, with its entry handed out.
pub open spec fn schedules<E>(
    threads: Seq<ThreadView<E>>,
    c: int,
    r: Option<Dispatch<E>>,
    after: Seq<ThreadView<E>>,
    c_after: int,
) -> bool {
    match r {
        None => {
            &&& after == threads
            &&& c_after == c
            &&& threads.len() <= 1 || forall|i: int|
                0 <= i < threads.len() ==> #[trigger] threads[i].state != ThreadState::Ready
        },
        Some(d) => {
            &&& threads.len() > 1
            &&& d.from == c
            &&& is_first_ready_after(threads, c, d.to as int)
            &&& d.entry == threads[d.to as int].entry
            &&& c_after == d.to
            &&& after == dispatched(threads, c, d.to as int)
        },
    }
}

/// The table with the thread `c` marked finished.
pub open spec fn mark_finished<E>(threads: Seq<ThreadView<E>>, c: int) -> Seq<ThreadView<E>> {
    threads.update(c, ThreadView { state: ThreadState::Finished, ..threads[c] })
}

/// A finished thread stays finished through a scheduling decision and is never the one
/// dispatched.
pub proof fn lemma_finished_stays_finished<E>(
    threads: Seq<ThreadView<E>>,
    c: int,
    r: Option<Dispatch<E>>,
    after: Seq<ThreadView<E>>,
    c_after: int,
    i: int,
)
    requires
        0 <= c < threads.len(),
        schedules(threads, c, r, after, c_after),
        0 <= i < threads.len(),
        threads[i].state == ThreadState::Finished,
    ensures
        after[i].state == ThreadState::Finished,
        r matches Some(d) ==> d.to != i,
{
}

/// A thread's entry is handed out at most once: a dispatch hands out the entry of the thread
/// it switches to and leaves that thread with none, and every other entry stays where it was.
pub proof fn lemma_entry_handed_out_once<E>(
    threads: Seq<ThreadView<E>>,
    c: int,
    r: Option<Dispatch<E>>,
    after: Seq<ThreadView<E>>,
    c_after: int,
)
    requires
        0 <= c < threads.len(),
        schedules(threads, c, r, after, c_after),
    ensures
        after.len() == threads.len(),
        r matches Some(d) ==> after[d.to as int].entry is None,
        forall|i: int|
            0 <= i < threads.len() && (r matches Some(d) ==> i != d.to) ==> #[trigger] after[i].entry
                == threads[i].entry,
{
}

/// While there are several threads and one of them is ready, a scheduling decision always
/// dispatches some thread: the scheduler idles only when no thread can run.
pub proof fn lemma_ready_thread_means_dispatch<E>(
    threads: Seq<ThreadView<E>>,
    c: int,
    r: Option<Dispatch<E>>,
    after: Seq<ThreadView<E>>,
    c_after: int,
    i: int,
)
    requires
        0 <= c < threads.len(),
        threads.len() > 1,
        schedules(threads, c, r, after, c_after),
        0 <= i < threads.len(),
        threads[i].state == ThreadState::Ready,
    ensures
        r is Some,
{
}

/// The round-robin choice is unique: one thread at most is the first ready one after `c`.
pub proof fn lemma_first_ready_is_unique<E>(threads: Seq<ThreadView<E>>, c: int, t1: int, t2: int)
    requires
        0 <= c < threads.len(),
        is_first_ready_after(threads, c, t1),
        is_first_ready_after(threads, c, t2),
    ensures
        t1 == t2,
{
    let n = threads.len() as int;
    let d1 = distance(c, t1, n);
    let d2 = distance(c, t2, n);
    assert(rotate(c, d1, n) == t1);
    assert(rotate(c, d2, n) == t2);
    if d1 < d2 {
        assert(threads[rotate(c, d1, n)].state != ThreadState::Ready);
    } else if d2 < d1 {
        assert(threads[rotate(c, d2, n)].state != ThreadState::Ready);
    }
}

/// In a well-formed scheduler, which every operation keeps well-formed, at most one thread is
/// running, and it is the current one.
pub proof fn lemma_at_most_one_running<E>(s: Scheduler<E>, i: int, j: int)
    requires
        s.wf(),
        0 <= i < s.threads().len(),
        0 <= j < s.threads().len(),
        s.threads()[i].state == ThreadState::Running,
        s.threads()[j].state == ThreadState::Running,
    ensures
        i == j,
        i == s.current(),
{
}

/// What a scheduling decision does to the table, thread by thread: without a dispatch nothing
/// changes; with one, the chosen thread was ready and now runs, its entry is handed out exactly
/// as it stood and it keeps none, the thread switched away from is ready again unless it had
/// finished, and every other thread is untouched.
pub proof fn lemma_dispatch_effect<E>(
    threads: Seq<ThreadView<E>>,
    c: int,
    r: Option<Dispatch<E>>,
    after: Seq<ThreadView<E>>,
    c_after: int,
)
    requires
        0 <= c < threads.len(),
        schedules(threads, c, r, after, c_after),
    ensures
        after.len() == threads.len(),
        r is None ==> after == threads && c_after == c,
        r matches Some(d) ==> {
            &&& d.from == c
            &&& 0 <= d.to < threads.len()
            &&& threads[d.to as int].state == ThreadState::Ready
            &&& d.entry == threads[d.to as int].entry
            &&& c_after == d.to
            &&& after[d.to as int].state == ThreadState::Running
            &&& after[d.to as int].entry is None
            &&& after[d.to as int].ctx == threads[d.to as int].ctx
            &&& after[d.to as int].stack == threads[d.to as int].stack
            &&& after[d.to as int].stack_base == threads[d.to as int].stack_base
            &&& d.to != c ==> after[c].state == (if threads[c].state == ThreadState::Finished {
                ThreadState::Finished
            } else {
                ThreadState::Ready
            })
            &&& d.to != c ==> after[c].entry == threads[c].entry && after[c].ctx == threads[c].ctx
                && after[c].stack == threads[c].stack && after[c].stack_base == threads[c].stack_base
            &&& forall|i: int|
                0 <= i < threads.len() && i != c && i != d.to ==> #[trigger] after[i] == threads[i]
        },
{
}

/// After a thread reports that it has finished, it is finished for good: it is not the one
/// dispatched, it stays marked finished, and the rest of the decision is as for a yield.
pub proof fn lemma_reported_thread_is_finished<E>(
    threads: Seq<ThreadView<E>>,
    c: int,
    r: Option<Dispatch<E>>,
    after: Seq<ThreadView<E>>,
    c_after: int,
)
    requires
        0 <= c < threads.len(),
        schedules(mark_finished(threads, c), c, r, after, c_after),
    ensures
        after.len() == threads.len(),
        after[c].state == ThreadState::Finished,
        r is None ==> c_after == c,
        r matches Some(d) ==> {
            &&& d.from == c
            &&& d.to != c
            &&& 0 <= d.to < threads.len()
            &&& threads[d.to as int].state == ThreadState::Ready
            &&& d.entry == threads[d.to as int].entry
            &&& c_after == d.to
            &&& after[d.to as int].state == ThreadState::Running
            &&& after[d.to as int].entry is None
        },
        forall|i: int|
            0 <= i < threads.len() && i != c && (r matches Some(d) ==> i != d.to) ==> #[trigger] after[i]
                == threads[i],
{
    lemma_dispatch_effect(mark_finished(threads, c), c, r, after, c_after);
}

/// Round-robin progress, one step: while thread `j` waits ready, a dispatch that passes it
/// over moves the running thread strictly closer to it in the cyclic order, and leaves it
/// ready.
pub proof fn lemma_dispatch_approaches_waiting_thread<E>(
    threads: Seq<ThreadView<E>>,
    c: int,
    d: Dispatch<E>,
    after: Seq<ThreadView<E>>,
    c_after: int,
    j: int,
)
    requires
        0 <= c < threads.len(),
        schedules(threads, c, Some(d), after, c_after),
        0 <= j < threads.len(),
        j != c,
        threads[j].state == ThreadState::Ready,
        d.to != j,
    ensures
        after.len() == threads.len(),
        0 <= c_after < threads.len(),
        c_after != j,
        after[j] == threads[j],
        1 <= distance(c_after, j, threads.len() as int) < distance(c, j, threads.len() as int),
{
    let n = threads.len() as int;
    let t = d.to as int;
    let dj = distance(c, j, n);
    let dt = distance(c, t, n);
    assert(rotate(c, dj, n) == j);
    assert(rotate(c, dt, n) == t);
    if dj < dt {
        assert(threads[rotate(c, dj, n)].state != ThreadState::Ready);
    }
}

/// Round-robin fairness: a thread that is ready, and is not the one running, is dispatched
/// within `n - 1` consecutive dispatches of a table of `n` threads. Put the other way, a run of
/// dispatches that all pass it over is shorter than `n - 1`.
pub proof fn lemma_waiting_thread_dispatched_within_n<E>(
    tables: Seq<Seq<ThreadView<E>>>,
    currents: Seq<int>,
    dispatches: Seq<Dispatch<E>>,
    j: int,
)
    requires
        tables.len() == dispatches.len() + 1,
        currents.len() == dispatches.len() + 1,
        forall|k: int|
            0 <= k < dispatches.len() ==> schedules(
                #[trigger] tables[k],
                currents[k],
                Some(dispatches[k]),
                tables[k + 1],
                currents[k + 1],
            ),
        0 <= currents[0] < tables[0].len(),
        0 <= j < tables[0].len(),
        j != currents[0],
        tables[0][j].state == ThreadState::Ready,
        forall|k: int| 0 <= k < dispatches.len() ==> #[trigger] dispatches[k].to != j,
    ensures
        dispatches.len() < tables[0].len() - 1,
{
    lemma_passing_over(tables, currents, dispatches, j, dispatches.len() as int);
}

/// After `k` dispatches that pass over the ready thread `j`, it is still ready, not running, and
/// at least `k` places closer to the running thread.
proof fn lemma_passing_over<E>(
    tables: Seq<Seq<ThreadView<E>>>,
    currents: Seq<int>,
    dispatches: Seq<Dispatch<E>>,
    j: int,
    k: int,
)
    requires
        tables.len() == dispatches.len() + 1,
        currents.len() == dispatches.len() + 1,
        forall|i: int|
            0 <= i < dispatches.len() ==> schedules(
                #[trigger] tables[i],
                currents[i],
                Some(dispatches[i]),
                tables[i + 1],
                currents[i + 1],
            ),
        0 <= currents[0] < tables[0].len(),
        0 <= j < tables[0].len(),
        j != currents[0],
        tables[0][j].state == ThreadState::Ready,
        forall|i: int| 0 <= i < dispatches.len() ==> #[trigger] dispatches[i].to != j,
        0 <= k <= dispatches.len(),
    ensures
        tables[k].len() == tables[0].len(),
        0 <= currents[k] < tables[0].len(),
        currents[k] != j,
        tables[k][j].state == ThreadState::Ready,
        1 <= distance(currents[k], j, tables[0].len() as int),
        distance(currents[k], j, tables[0].len() as int) + k <= distance(
            currents[0],
            j,
            tables[0].len() as int,
        ),
        distance(currents[0], j, tables[0].len() as int) < tables[0].len(),
    decreases k,
{
    if k > 0 {
        lemma_passing_over(tables, currents, dispatches, j, k - 1);
        assert(dispatches[k - 1].to != j);
        lemma_dispatch_approaches_waiting_thread(
            tables[k - 1],
            currents[k - 1],
            dispatches[k - 1],
            tables[k],
            currents[k],
            j,
        );
    }
}

impl<E> Scheduler<E> {
    /// The thread table, as views.
    pub closed spec fn threads(&self) -> Seq<ThreadView<E>> {
        Seq::new(self.threads@.len(), |i: int| self.threads@[i].view_with(self.contexts@[i]))
    }

    #[verifier::type_invariant]
    spec fn inv(self) -> bool {
        &&& self.contexts@.len() == self.threads@.len()
        &&& self.current < self.threads@.len()
        &&& forall|i: int|
            0 <= i < self.threads@.len() && i != self.current
                ==> #[trigger] self.threads@[i].state != ThreadState::Running
    }

    /// The invariant, read through the views.
    proof fn lemma_inv_is_wf(&self)
        requires
            self.inv(),
        ensures
            self.wf(),
    {
        assert forall|i: int|
            0 <= i < self.threads().len() && i != self.current() implies
            #[trigger] self.threads()[i].state != ThreadState::Running by {
            assert(self.threads()[i].state == self.threads@[i].state);
        }
    }

    pub closed spec fn spec_current(&self) -> usize {
        self.current
    }

    /// The running thread is a valid index, and no other thread is marked running.
    pub open spec fn wf(&self) -> bool {
        &&& self.current() < self.threads().len()
        &&& forall|i: int|
            0 <= i < self.threads().len() && i != self.current()
                ==> #[trigger] self.threads()[i].state != ThreadState::Running
    }

    /// A scheduler whose only thread is the main one, running, with a zeroed context, no
    /// stack of its own and no entry.
    pub fn new() -> (r: Self)
        ensures
            r.wf(),
            r.current() == 0,
            r.threads().len() == 1,
            r.threads()[0].state == ThreadState::Running,
            r.threads()[0].ctx.is_zero(),
            r.threads()[0].stack is None,
            r.threads()[0].stack_base is None,
            r.threads()[0].entry is None,
    {
        let main_thread = GreenThread {
            state: ThreadState::Running,
            stack: None,
            stack_base: None,
            entry: None,
        };
        let main_ctx = TaskContext::default();
        let mut threads = Vec::new();
        threads.push(main_thread);
        let mut contexts = Vec::new();
        contexts.push(main_ctx);
        let r = Scheduler { threads, contexts, current: 0 };
        assert(r.threads()[0] == main_thread.view_with(main_ctx));
        r
    }

    /// The index of the thread that runs now.
    #[verifier::when_used_as_spec(spec_current)]
    pub fn current(&self) -> (r: usize)
        ensures
            r == self.current(),
    {
        self.current
    }

    /// The number of threads, the main one included.
    pub fn thread_count(&self) -> (r: usize)
        ensures
            r == self.threads().len(),
    {
        self.threads.len()
    }

    /// The state of thread `i`.
    pub fn state(&self, i: usize) -> (r: ThreadState)
        requires
            i < self.threads().len(),
        ensures
            r == self.threads()[i as int].state,
    {
        self.threads[i].state
    }

    /// Adds a thread that will start `entry`: it gets a zeroed stack of `STACK_SIZE` bytes, whose
    /// address the thread keeps, and a context whose `sp` lies inside that stack, 16 bytes below
    /// its top, rounded down to a 16-byte boundary, and whose `ra` is `trampoline`, the address at which the first switch into the
    /// thread resumes (the routine that runs the entry and then marks the thread finished).
    pub fn spawn(&mut self, entry: E, trampoline: usize)
        ensures
            final(self).wf(),
            final(self).current() == old(self).current(),
            final(self).threads().len() == old(self).threads().len() + 1,
            forall|i: int|
                0 <= i < old(self).threads().len() ==> #[trigger] final(self).threads()[i]
                    == old(self).threads()[i],
            ({
                let t = final(self).threads().last();
                &&& t.state == ThreadState::Ready
                &&& t.entry == Some(entry)
                &&& t.stack == Some(Seq::new(STACK_SIZE as nat, |i: int| 0u8))
                &&& t.ctx.ra == trampoline
                &&& t.ctx.sp % 16 == 0
                &&& t.ctx.saved_regs() == Seq::new(12, |i: int| 0u64)
                &&& t.stack_base is Some
                &&& t.stack_base->0 + STACK_SIZE <= usize::MAX
                &&& t.ctx.sp == align_down_16(t.stack_base->0 + STACK_SIZE - 16)
                &&& t.stack_base->0 + STACK_SIZE - 32 < t.ctx.sp <= t.stack_base->0 + STACK_SIZE - 16
            }),
    {
        proof {
            use_type_invariant(&*self);
        }
        let stack_buf = vec![0u8; STACK_SIZE];
        let base = buffer_address(&stack_buf);
        let stack_top = base + STACK_SIZE;
        let aligned_sp = align_down_16_usize(stack_top - 16);

        let mut ctx = TaskContext::default();
        ctx.sp = aligned_sp as u64;
        ctx.ra = trampoline as u64;

        let thread = GreenThread {
            state: ThreadState::Ready,
            stack: Some(stack_buf),
            stack_base: Some(base),
            entry: Some(entry),
        };
        let ghost before = old(self).threads();
        // Pushing could unwind while a field is borrowed, so the table is moved out whole, with
        // a fresh scheduler standing in, and moved back once it has grown.
        let mut taken = Scheduler::new();
        std::mem::swap(self, &mut taken);
        proof {
            use_type_invariant(&taken);
        }
        let ghost taken_threads = taken.threads();
        let Scheduler { mut threads, mut contexts, current } = taken;
        threads.push(thread);
        contexts.push(ctx);
        assert(threads@[threads@.len() - 1] == thread);
        *self = Scheduler { threads, contexts, current };
        proof {
            use_type_invariant(&*self);
            self.lemma_inv_is_wf();
            assert(taken_threads == before);
            assert(stack_buf@ =~= Seq::new(STACK_SIZE as nat, |i: int| 0u8));
            assert(self.threads().last() == thread.view_with(ctx));
            assert forall|i: int| 0 <= i < before.len() implies
                #[trigger] self.threads()[i] == before[i] by {
            }
            assert(align_down_16(base + STACK_SIZE - 16) == aligned_sp);
        }
    }

    /// Picks the thread to run next, round robin: the first ready thread after the current
    /// one, walking the table cyclically and coming back to the current one last. The current
    /// thread becomes ready again unless it has finished, the chosen one runs, and its entry is
    /// handed out in the returned `Dispatch` (once: the table keeps none afterwards). With a
    /// single thread, or no ready thread, nothing changes and `None` comes back.
    pub fn schedule_next(&mut self) -> (r: Option<Dispatch<E>>)
        ensures
            final(self).wf(),
            schedules(old(self).threads(), old(self).current() as int, r, final(self).threads(), final(self).current() as int),
            final(self).threads().len() == old(self).threads().len(),
            r is None ==> final(self).threads() == old(self).threads() && final(self).current() == old(self).current(),
            r matches Some(d) ==> {
                &&& d.from == old(self).current()
                &&& d.to < old(self).threads().len()
                &&& old(self).threads()[d.to as int].state == ThreadState::Ready
                &&& d.entry == old(self).threads()[d.to as int].entry
                &&& final(self).current() == d.to
                &&& final(self).threads()[d.to as int].state == ThreadState::Running
                &&& final(self).threads()[d.to as int].entry is None
                &&& d.to != d.from ==> final(self).threads()[d.from as int].state == (
                if old(self).threads()[d.from as int].state == ThreadState::Finished {
                    ThreadState::Finished
                } else {
                    ThreadState::Ready
                })
                &&& forall|i: int|
                    0 <= i < old(self).threads().len() && i != d.from && i != d.to
                        ==> #[trigger] final(self).threads()[i] == old(self).threads()[i]
            },
    {
        proof {
            use_type_invariant(&*self);
        }
        let thread_count = self.threads.len();
        if thread_count <= 1 {
            return None;
        }
        let current_idx = self.current;
        let ghost n = thread_count as int;
        let ghost c = current_idx as int;
        let ghost threads = self.threads();
        proof {
            if current_idx + 1 < thread_count {
                vstd::arithmetic::div_mod::lemma_small_mod((current_idx + 1) as nat, thread_count as nat);
            }
            vstd::arithmetic::div_mod::lemma_mod_self_0(thread_count as int);
        }
        let mut next_idx = (current_idx + 1) % thread_count;
        let start_idx = next_idx;
        let ghost mut k: int = 1;

        loop
            invariant_except_break
                1 <= k <= n,
                next_idx == rotate(c, k, n),
                forall|j: int| 1 <= j < k ==> #[trigger] threads[rotate(c, j, n)].state != ThreadState::Ready,
            invariant
                self.wf(),
                self.threads() == threads,
                threads.len() == n,
                n == thread_count,
                n > 1,
                c == current_idx,
                current_idx == self.current,
                start_idx == rotate(c, 1, n),
            ensures
                1 <= k <= n,
                next_idx == rotate(c, k, n),
                threads[next_idx as int].state == ThreadState::Ready,
                forall|j: int| 1 <= j < k ==> #[trigger] threads[rotate(c, j, n)].state != ThreadState::Ready,
            decreases n - k,
        {
            assert(threads[next_idx as int].state == self.threads@[next_idx as int].state);
            if self.threads[next_idx].state == ThreadState::Ready {
                break;
            }
            proof {
                if next_idx + 1 < thread_count {
                    vstd::arithmetic::div_mod::lemma_small_mod((next_idx + 1) as nat, thread_count as nat);
                }
                vstd::arithmetic::div_mod::lemma_mod_self_0(thread_count as int);
            }
            next_idx = (next_idx + 1) % thread_count;
            proof {
                k = k + 1;
            }
            if next_idx == start_idx {
                proof {
                    assert forall|i: int| 0 <= i < n implies #[trigger] threads[i].state != ThreadState::Ready by {
                        let j = distance(c, i, n);
                        assert(rotate(c, j, n) == i);
                    }
                }
                return None;
            }
        }

        let ghost t = next_idx as int;
        assert(distance(c, t, n) == k);
        if self.threads[current_idx].state != ThreadState::Finished {
            self.threads[current_idx].state = ThreadState::Ready;
        }
        self.current = next_idx;
        self.threads[next_idx].state = ThreadState::Running;
        let entry = self.threads[next_idx].entry.take();
        proof {
            assert(self.threads() =~= dispatched(threads, c, t));
        }
        Some(Dispatch { from: current_idx, to: next_idx, entry })
    }

    /// Marks the current thread finished, then picks the next thread as `schedule_next`
    /// does. A finished thread is never picked again.
    pub fn thread_finished(&mut self) -> (r: Option<Dispatch<E>>)
        ensures
            final(self).wf(),
            schedules(
                mark_finished(old(self).threads(), old(self).current() as int),
                old(self).current() as int,
                r,
                final(self).threads(),
                final(self).current() as int,
            ),
            final(self).threads().len() == old(self).threads().len(),
            final(self).threads()[old(self).current() as int].state == ThreadState::Finished,
            r is None ==> final(self).current() == old(self).current(),
            r matches Some(d) ==> {
                &&& d.from == old(self).current()
                &&& d.to != d.from
                &&& d.to < old(self).threads().len()
                &&& old(self).threads()[d.to as int].state == ThreadState::Ready
                &&& d.entry == old(self).threads()[d.to as int].entry
                &&& final(self).current() == d.to
                &&& final(self).threads()[d.to as int].state == ThreadState::Running
                &&& final(self).threads()[d.to as int].entry is None
            },
            forall|i: int|
                0 <= i < old(self).threads().len() && i != old(self).current() && (r matches Some(d)
                    ==> i != d.to) ==> #[trigger] final(self).threads()[i] == old(self).threads()[i],
    {
        proof {
            use_type_invariant(&*self);
        }
        let current_idx = self.current;
        self.threads[current_idx].state = ThreadState::Finished;
        proof {
            assert(self.threads() =~= mark_finished(old(self).threads(), current_idx as int));
        }
        self.schedule_next()
    }

    /// The saved registers of thread `i`, to be switched away from: the switch stores the
    /// running thread's registers there.
    pub fn context_mut(&mut self, i: usize) -> (ctx: &mut TaskContext)
        requires
            i < old(self).threads().len(),
        ensures
            *ctx == old(self).threads()[i as int].ctx,
            final(self).current() == old(self).current(),
            final(self).threads() == old(self).threads().update(
                i as int,
                ThreadView { ctx: *final(ctx), ..old(self).threads()[i as int] },
            ),
    {
        proof {
            use_type_invariant(&*self);
        }
        &mut self.contexts[i]
    }

    /// The saved registers of thread `i`, to be switched to.
    pub fn context(&self, i: usize) -> (ctx: &TaskContext)
        requires
            i < self.threads().len(),
        ensures
            *ctx == self.threads()[i as int].ctx,
    {
        proof {
            use_type_invariant(self);
        }
        &self.contexts[i]
    }

    /// Whether every thread but the main one has finished.
    pub fn all_finished(&self) -> (r: bool)
        ensures
            r == forall|i: int|
                1 <= i < self.threads().len() ==> #[trigger] self.threads()[i].state
                    == ThreadState::Finished,
    {
        let n = self.threads.len();
        let mut i: usize = 1;
        while i < n
            invariant
                n == self.threads().len(),
                1 <= i <= n || n == 0,
                forall|j: int| 1 <= j < i ==> #[trigger] self.threads()[j].state == ThreadState::Finished,
            decreases n - i,
        {
            if self.threads[i].state != ThreadState::Finished {
                assert(self.threads()[i as int].state != ThreadState::Finished);
                return false;
            }
            i = i + 1;
        }
        true
    }
}

} // verus!
