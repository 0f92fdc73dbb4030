//! The deterministic scheduler and the virtual clock. Tasks are bound to
//! nodes; one runs at a time. The next to run is always the runnable task of
//! smallest tie-break key, a key fixed by the seed and the order in which work
//! became runnable. When nothing is runnable the clock jumps to the earliest
//! timer and wakes its task. The clock never goes back.
use vstd::prelude::*;

use crate::addr::Addr;
use crate::rand::{mix, mix64};

verus! {

/// The state of a task.
#[derive(Clone, Copy, Debug, PartialEq, Eq, Structural)]
pub enum TaskStatus {
    /// Waiting for its turn.
    Runnable,
    /// The task that runs now.
    Running,
    /// Suspended until a timer fires or it is woken.
    Pending,
    /// Finished.
    Completed,
    /// Dropped before it finished; it never runs again.
    Cancelled,
}

/// A task's node and state.
#[derive(Clone, Copy, Debug, PartialEq, Eq, Structural)]
pub struct TaskInfo {
    pub node: Addr,
    pub status: TaskStatus,
}

/// A runnable task, with its place in the order: `key`, then `seq`.
#[derive(Clone, Copy, Debug, PartialEq, Eq, Structural)]
pub struct Ready {
    pub key: u64,
    pub seq: u64,
    pub task: usize,
}

/// A wake-up of `task` at time `deadline`; ties go by `key`, then `seq`.
#[derive(Clone, Copy, Debug, PartialEq, Eq, Structural)]
pub struct Timer {
    pub deadline: u64,
    pub key: u64,
    pub seq: u64,
    pub task: usize,
}

/// The tie-break key of the work that became runnable `seq`-th under `seed`.
pub open spec fn tie_key(seed: u64, seq: u64) -> u64 {
    mix(seed ^ seq)
}

/// `a` runs before `b`.
pub open spec fn ready_before(a: Ready, b: Ready) -> bool {
    a.key < b.key || (a.key == b.key && a.seq < b.seq)
}

/// `a` fires before `b`.
pub open spec fn timer_before(a: Timer, b: Timer) -> bool {
    a.deadline < b.deadline || (a.deadline == b.deadline && (a.key < b.key || (a.key == b.key && a.seq
        < b.seq)))
}

/// `s[i]` is the entry of `s` that runs first.
pub open spec fn first_ready(s: Seq<Ready>, i: int) -> bool {
    0 <= i < s.len() && forall|j: int| 0 <= j < s.len() ==> !ready_before(#[trigger] s[j], s[i])
}

/// `s[i]` is the timer of `s` that fires first.
pub open spec fn first_timer(s: Seq<Timer>, i: int) -> bool {
    0 <= i < s.len() && forall|j: int| 0 <= j < s.len() ==> !timer_before(#[trigger] s[j], s[i])
}

/// No two entries of `s` share a sequence number.
pub open spec fn unique_seqs(s: Seq<Ready>) -> bool {
    forall|i: int, j: int| 0 <= i < s.len() && 0 <= j < s.len() && i != j ==> s[i].seq != s[j].seq
}

/// No two timers of `s` share a sequence number.
pub open spec fn unique_timer_seqs(s: Seq<Timer>) -> bool {
    forall|i: int, j: int| 0 <= i < s.len() && 0 <= j < s.len() && i != j ==> s[i].seq != s[j].seq
}

/// No task has two entries in `s`.
pub open spec fn unique_tasks(s: Seq<Ready>) -> bool {
    forall|i: int, j: int| 0 <= i < s.len() && 0 <= j < s.len() && i != j ==> s[i].task != s[j].task
}

/// The abstract state of the scheduler.
pub struct SchedView {
    pub seed: u64,
    pub now: u64,
    pub next_seq: u64,
    pub ready: Seq<Ready>,
    pub timers: Seq<Timer>,
    pub tasks: Seq<TaskInfo>,
    pub running: Option<usize>,
}

impl SchedView {
    pub open spec fn wf(self) -> bool {
        &&& forall|i: int|
            0 <= i < self.ready.len() ==> {
                let e = #[trigger] self.ready[i];
                &&& e.task < self.tasks.len()
                &&& self.tasks[e.task as int].status == TaskStatus::Runnable
                &&& e.key == tie_key(self.seed, e.seq)
                &&& e.seq < self.next_seq
            }
        &&& unique_seqs(self.ready)
        &&& unique_tasks(self.ready)
        &&& unique_timer_seqs(self.timers)
        &&& forall|i: int|
            0 <= i < self.timers.len() ==> {
                let t = #[trigger] self.timers[i];
                &&& t.task < self.tasks.len()
                &&& self.tasks[t.task as int].status == TaskStatus::Pending
                &&& t.key == tie_key(self.seed, t.seq)
                &&& t.seq < self.next_seq
                &&& t.deadline >= self.now
            }
        &&& self.running matches Some(t) ==> t < self.tasks.len() && self.tasks[t as int].status
            == TaskStatus::Running
        &&& forall|t: usize|
            t < self.tasks.len() && #[trigger] self.tasks[t as int].status == TaskStatus::Running
                ==> self.running == Some(t)
    }

    /// Task `t` with status `s`.
    pub open spec fn with_status(self, t: int, s: TaskStatus) -> Seq<TaskInfo> {
        self.tasks.update(t, TaskInfo { status: s, ..self.tasks[t] })
    }
}

/// One scheduling step from `v` to `w`, which runs task `r`: the runnable
/// entry that comes first, or else, with the clock moved to its deadline, the
/// task of the timer that fires first; with neither, nothing happens.
pub open spec fn stepped(v: SchedView, w: SchedView, r: Option<usize>) -> bool {
    &&& v.ready.len() > 0 ==> exists|b: int|
        first_ready(v.ready, b) && r == Some(v.ready[b].task) && w == (SchedView {
            ready: v.ready.remove(b),
            tasks: v.with_status(v.ready[b].task as int, TaskStatus::Running),
            running: r,
            ..v
        })
    &&& v.ready.len() == 0 && v.timers.len() > 0 ==> exists|b: int|
        first_timer(v.timers, b) && r == Some(v.timers[b].task) && w == (SchedView {
            now: v.timers[b].deadline,
            timers: timers_without(v.timers, v.timers[b].task),
            tasks: v.with_status(v.timers[b].task as int, TaskStatus::Running),
            running: r,
            ..v
        })
    &&& v.ready.len() == 0 && v.timers.len() == 0 ==> r is None && w == v
}

/// Owns every task of a simulation, the order in which they run, and the clock.
pub struct Scheduler {
    seed: u64,
    now: u64,
    next_seq: u64,
    ready: Vec<Ready>,
    timers: Vec<Timer>,
    tasks: Vec<TaskInfo>,
    running: Option<usize>,
}

impl View for Scheduler {
    type V = SchedView;

    closed spec fn view(&self) -> SchedView {
        SchedView {
            seed: self.seed,
            now: self.now,
            next_seq: self.next_seq,
            ready: self.ready@,
            timers: self.timers@,
            tasks: self.tasks@,
            running: self.running,
        }
    }
}

fn ready_first(a: &Ready, b: &Ready) -> (r: bool)
    ensures
        r == ready_before(*a, *b),
{
    a.key < b.key || (a.key == b.key && a.seq < b.seq)
}

fn timer_first(a: &Timer, b: &Timer) -> (r: bool)
    ensures
        r == timer_before(*a, *b),
{
    a.deadline < b.deadline || (a.deadline == b.deadline && (a.key < b.key || (a.key == b.key && a.seq
        < b.seq)))
}

fn index_of_first_ready(v: &Vec<Ready>) -> (b: usize)
    requires
        v@.len() > 0,
    ensures
        first_ready(v@, b as int),
{
    let mut best: usize = 0;
    let mut i: usize = 1;
    while i < v.len()
        invariant
            1 <= i <= v@.len(),
            best < i,
            forall|j: int| 0 <= j < i ==> !ready_before(#[trigger] v@[j], v@[best as int]),
        decreases v@.len() - i,
    {
        if ready_first(&v[i], &v[best]) {
            best = i;
        }
        i = i + 1;
    }
    best
}

fn index_of_first_timer(v: &Vec<Timer>) -> (b: usize)
    requires
        v@.len() > 0,
    ensures
        first_timer(v@, b as int),
{
    let mut best: usize = 0;
    let mut i: usize = 1;
    while i < v.len()
        invariant
            1 <= i <= v@.len(),
            best < i,
            forall|j: int| 0 <= j < i ==> !timer_before(#[trigger] v@[j], v@[best as int]),
        decreases v@.len() - i,
    {
        if timer_first(&v[i], &v[best]) {
            best = i;
        }
        i = i + 1;
    }
    best
}

/// The entries of `s` that are not for task `t`.
pub open spec fn ready_without(s: Seq<Ready>, t: usize) -> Seq<Ready> {
    s.filter(|e: Ready| e.task != t)
}

/// The timers of `s` that are not for task `t`.
pub open spec fn timers_without(s: Seq<Timer>, t: usize) -> Seq<Timer> {
    s.filter(|e: Timer| e.task != t)
}

fn drop_ready_of(v: &Vec<Ready>, t: usize) -> (r: Vec<Ready>)
    ensures
        r@ == ready_without(v@, t),
{
    let mut out: Vec<Ready> = Vec::new();
    let mut i: usize = 0;
    while i < v.len()
        invariant
            i <= v@.len(),
            out@ == ready_without(v@.subrange(0, i as int), t),
        decreases v@.len() - i,
    {
        proof {
            reveal(Seq::filter);
            assert(v@.subrange(0, i + 1).drop_last() =~= v@.subrange(0, i as int));
        }
        if v[i].task != t {
            out.push(v[i]);
        }
        i = i + 1;
    }
    assert(v@.subrange(0, v@.len() as int) =~= v@);
    out
}

fn drop_timers_of(v: &Vec<Timer>, t: usize) -> (r: Vec<Timer>)
    ensures
        r@ == timers_without(v@, t),
{
    let mut out: Vec<Timer> = Vec::new();
    let mut i: usize = 0;
    while i < v.len()
        invariant
            i <= v@.len(),
            out@ == timers_without(v@.subrange(0, i as int), t),
        decreases v@.len() - i,
    {
        proof {
            reveal(Seq::filter);
            assert(v@.subrange(0, i + 1).drop_last() =~= v@.subrange(0, i as int));
        }
        if v[i].task != t {
            out.push(v[i]);
        }
        i = i + 1;
    }
    assert(v@.subrange(0, v@.len() as int) =~= v@);
    out
}

proof fn lemma_filter_keeps_only_others<A>(s: Seq<A>, pred: spec_fn(A) -> bool)
    ensures
        forall|i: int| 0 <= i < s.filter(pred).len() ==> pred(#[trigger] s.filter(pred)[i]),
        forall|i: int|
            0 <= i < s.filter(pred).len() ==> exists|j: int|
                0 <= j < s.len() && s[j] == #[trigger] s.filter(pred)[i],
    decreases s.len(),
{
    reveal(Seq::filter);
    if s.len() > 0 {
        lemma_filter_keeps_only_others(s.drop_last(), pred);
        let sub = s.drop_last().filter(pred);
        let out = s.filter(pred);
        assert forall|i: int| 0 <= i < out.len() implies pred(#[trigger] out[i]) && exists|j: int|
            0 <= j < s.len() && s[j] == out[i] by {
            if i < sub.len() {
                assert(out[i] == sub[i]);
                let j = choose|j: int| 0 <= j < s.drop_last().len() && s.drop_last()[j] == sub[i];
                assert(s[j] == out[i]);
            } else {
                assert(out[i] == s.last());
                assert(s[s.len() - 1] == out[i]);
            }
        }
    }
}

proof fn lemma_filter_unique_seqs(s: Seq<Ready>, pred: spec_fn(Ready) -> bool)
    requires
        unique_seqs(s),
    ensures
        unique_seqs(s.filter(pred)),
    decreases s.len(),
{
    reveal(Seq::filter);
    if s.len() > 0 {
        lemma_filter_unique_seqs(s.drop_last(), pred);
        lemma_filter_keeps_only_others(s.drop_last(), pred);
        let sub = s.drop_last().filter(pred);
        if pred(s.last()) {
            assert forall|i: int| 0 <= i < sub.len() implies sub[i].seq != s.last().seq by {
                let j = choose|j: int| 0 <= j < s.drop_last().len() && s.drop_last()[j] == #[trigger] sub[i];
                assert(s[j] == sub[i]);
            }
        }
    }
}

proof fn lemma_filter_unique_timer_seqs(s: Seq<Timer>, pred: spec_fn(Timer) -> bool)
    requires
        unique_timer_seqs(s),
    ensures
        unique_timer_seqs(s.filter(pred)),
    decreases s.len(),
{
    reveal(Seq::filter);
    if s.len() > 0 {
        lemma_filter_unique_timer_seqs(s.drop_last(), pred);
        lemma_filter_keeps_only_others(s.drop_last(), pred);
        let sub = s.drop_last().filter(pred);
        if pred(s.last()) {
            assert forall|i: int| 0 <= i < sub.len() implies sub[i].seq != s.last().seq by {
                let j = choose|j: int| 0 <= j < s.drop_last().len() && s.drop_last()[j] == #[trigger] sub[i];
                assert(s[j] == sub[i]);
            }
        }
    }
}

proof fn lemma_filter_unique_tasks(s: Seq<Ready>, pred: spec_fn(Ready) -> bool)
    requires
        unique_tasks(s),
    ensures
        unique_tasks(s.filter(pred)),
    decreases s.len(),
{
    reveal(Seq::filter);
    if s.len() > 0 {
        lemma_filter_unique_tasks(s.drop_last(), pred);
        lemma_filter_keeps_only_others(s.drop_last(), pred);
        let sub = s.drop_last().filter(pred);
        if pred(s.last()) {
            assert forall|i: int| 0 <= i < sub.len() implies sub[i].task != s.last().task by {
                let j = choose|j: int| 0 <= j < s.drop_last().len() && s.drop_last()[j] == #[trigger] sub[i];
                assert(s[j] == sub[i]);
            }
        }
    }
}

proof fn lemma_stop_running(v: SchedView, t: usize, s: TaskStatus)
    requires
        v.wf(),
        v.running == Some(t),
        s != TaskStatus::Running,
    ensures
        forall|u: usize|
            u < v.tasks.len() ==> #[trigger] v.with_status(t as int, s)[u as int].status != TaskStatus::Running,
{
    assert forall|u: usize| u < v.tasks.len() implies #[trigger] v.with_status(t as int, s)[u as int].status
        != TaskStatus::Running by {
        if u != t {
            assert(v.with_status(t as int, s)[u as int] == v.tasks[u as int]);
        }
    }
}

impl Scheduler {
    pub open spec fn wf(&self) -> bool {
        self@.wf()
    }

    /// A scheduler with no task, its clock at zero, for a run with `seed`.
    pub fn new(seed: u64) -> (r: Scheduler)
        ensures
            r.wf(),
            r@ == (SchedView {
                seed,
                now: 0,
                next_seq: 0,
                ready: Seq::empty(),
                timers: Seq::empty(),
                tasks: Seq::empty(),
                running: None,
            }),
    {
        Scheduler {
            seed,
            now: 0,
            next_seq: 0,
            ready: Vec::new(),
            timers: Vec::new(),
            tasks: Vec::new(),
            running: None,
        }
    }

    /// The time on the virtual clock.
    pub fn now(&self) -> (r: u64)
        ensures
            r == self@.now,
    {
        self.now
    }

    /// The state of task `t`.
    pub fn status(&self, t: usize) -> (r: TaskStatus)
        requires
            t < self@.tasks.len(),
        ensures
            r == self@.tasks[t as int].status,
    {
        self.tasks[t].status
    }

    /// The task that runs now and its node: the context that a task's calls
    /// resolve "this node" against.
    pub fn current(&self) -> (r: Option<(usize, Addr)>)
        requires
            self.wf(),
        ensures
            match self@.running {
                Some(t) => r == Some((t, self@.tasks[t as int].node)),
                None => r is None,
            },
    {
        match self.running {
            Some(t) => Some((t, self.tasks[t].node)),
            None => None,
        }
    }

    fn enqueue(&mut self, t: usize)
        requires
            old(self)@.next_seq < u64::MAX,
            t < old(self)@.tasks.len(),
        ensures
            final(self)@ == (SchedView {
                next_seq: (old(self)@.next_seq + 1) as u64,
                ready: old(self)@.ready.push(
                    Ready {
                        key: tie_key(old(self)@.seed, old(self)@.next_seq),
                        seq: old(self)@.next_seq,
                        task: t,
                    },
                ),
                ..old(self)@
            }),
    {
        let seq = self.next_seq;
        let key = mix64(self.seed ^ seq);
        self.ready.push(Ready { key, seq, task: t });
        self.next_seq = seq + 1;
    }

    /// Adds a task on `node`, runnable at once; its number is returned.
    pub fn spawn(&mut self, node: Addr) -> (r: usize)
        requires
            old(self).wf(),
            old(self)@.next_seq < u64::MAX,
        ensures
            final(self).wf(),
            r == old(self)@.tasks.len(),
            final(self)@ == (SchedView {
                next_seq: (old(self)@.next_seq + 1) as u64,
                ready: old(self)@.ready.push(
                    Ready {
                        key: tie_key(old(self)@.seed, old(self)@.next_seq),
                        seq: old(self)@.next_seq,
                        task: r,
                    },
                ),
                tasks: old(self)@.tasks.push(TaskInfo { node, status: TaskStatus::Runnable }),
                ..old(self)@
            }),
    {
        let t = self.tasks.len();
        self.tasks.push(TaskInfo { node, status: TaskStatus::Runnable });
        self.enqueue(t);
        t
    }

    /// Picks the task to run next, marks it running and returns it. Among the
    /// runnable tasks it is the one of smallest key. When none is runnable the
    /// clock moves to the earliest timer, which fires and wakes its task. With
    /// nothing runnable and no timer, nothing changes.
    pub fn step(&mut self) -> (r: Option<usize>)
        requires
            old(self).wf(),
            old(self)@.running is None,
        ensures
            final(self).wf(),
            final(self)@.now >= old(self)@.now,
            stepped(old(self)@, final(self)@, r),
    {
        let ghost v = self@;
        if self.ready.len() > 0 {
            let b = index_of_first_ready(&self.ready);
            let e = self.ready.remove(b);
            let info = self.tasks[e.task];
            self.tasks.set(e.task, TaskInfo { status: TaskStatus::Running, ..info });
            self.running = Some(e.task);
            proof {
                assert(self@.ready =~= v.ready.remove(b as int));
                assert forall|i: int| 0 <= i < self@.ready.len() implies self@.ready[i].task != e.task by {
                    let k = if i < b { i } else { i + 1 };
                    assert(self@.ready[i] == v.ready[k]);
                }
                assert forall|i: int, j: int|
                    0 <= i < self@.ready.len() && 0 <= j < self@.ready.len() && i != j implies self@.ready[i].seq
                    != self@.ready[j].seq && self@.ready[i].task != self@.ready[j].task by {
                    let ki = if i < b { i } else { i + 1 };
                    let kj = if j < b { j } else { j + 1 };
                    assert(self@.ready[i] == v.ready[ki]);
                    assert(self@.ready[j] == v.ready[kj]);
                }
                assert forall|i: int| 0 <= i < self@.ready.len() implies {
                    let x = #[trigger] self@.ready[i];
                    &&& x.task < self@.tasks.len()
                    &&& self@.tasks[x.task as int].status == TaskStatus::Runnable
                    &&& x.key == tie_key(self@.seed, x.seq)
                    &&& x.seq < self@.next_seq
                } by {
                    let k = if i < b { i } else { i + 1 };
                    assert(self@.ready[i] == v.ready[k]);
                }
                assert forall|i: int| 0 <= i < self@.timers.len() implies {
                    let x = #[trigger] self@.timers[i];
                    &&& x.task < self@.tasks.len()
                    &&& self@.tasks[x.task as int].status == TaskStatus::Pending
                    &&& x.key == tie_key(self@.seed, x.seq)
                    &&& x.seq < self@.next_seq
                    &&& x.deadline >= self@.now
                } by {
                    assert(self@.timers[i] == v.timers[i]);
                }
                assert(self@ == (SchedView {
                    ready: v.ready.remove(b as int),
                    tasks: v.with_status(v.ready[b as int].task as int, TaskStatus::Running),
                    running: Some(e.task),
                    ..v
                }));
            }
            Some(e.task)
        } else if self.timers.len() > 0 {
            let b = index_of_first_timer(&self.timers);
            let tm = self.timers[b];
            self.now = tm.deadline;
            self.timers = drop_timers_of(&self.timers, tm.task);
            let info = self.tasks[tm.task];
            self.tasks.set(tm.task, TaskInfo { status: TaskStatus::Running, ..info });
            self.running = Some(tm.task);
            proof {
                let pred = |x: Timer| x.task != tm.task;
                lemma_filter_keeps_only_others(v.timers, pred);
                lemma_filter_unique_timer_seqs(v.timers, pred);
                assert forall|i: int| 0 <= i < self@.timers.len() implies {
                    let x = #[trigger] self@.timers[i];
                    &&& x.task < self@.tasks.len()
                    &&& self@.tasks[x.task as int].status == TaskStatus::Pending
                    &&& x.key == tie_key(self@.seed, x.seq)
                    &&& x.seq < self@.next_seq
                    &&& x.deadline >= self@.now
                } by {
                    let x = self@.timers[i];
                    assert(pred(x));
                    let j = choose|j: int| 0 <= j < v.timers.len() && v.timers[j] == x;
                    assert(!timer_before(v.timers[j], v.timers[b as int]));
                }
            }
            Some(tm.task)
        } else {
            None
        }
    }

    /// The running task gives way: it goes back among the runnable tasks,
    /// behind the work that is already there in sequence order.
    pub fn yield_now(&mut self)
        requires
            old(self).wf(),
            old(self)@.running is Some,
            old(self)@.next_seq < u64::MAX,
        ensures
            final(self).wf(),
            ({
                let t = old(self)@.running->Some_0;
                final(self)@ == (SchedView {
                    next_seq: (old(self)@.next_seq + 1) as u64,
                    ready: old(self)@.ready.push(
                        Ready {
                            key: tie_key(old(self)@.seed, old(self)@.next_seq),
                            seq: old(self)@.next_seq,
                            task: t,
                        },
                    ),
                    tasks: old(self)@.with_status(t as int, TaskStatus::Runnable),
                    running: None,
                    ..old(self)@
                })
            }),
    {
        let t = match self.running {
            Some(t) => t,
            None => 0,
        };
        let ghost v = self@;
        let info = self.tasks[t];
        self.tasks.set(t, TaskInfo { status: TaskStatus::Runnable, ..info });
        self.running = None;
        proof {
            assert forall|i: int| 0 <= i < v.ready.len() implies v.ready[i].task != t by {}
            lemma_stop_running(v, t, TaskStatus::Runnable);
        }
        self.enqueue(t);
        proof {
            let s = self@;
            assert forall|i: int, j: int|
                0 <= i < s.ready.len() && 0 <= j < s.ready.len() && i != j implies s.ready[i].seq
                != s.ready[j].seq && s.ready[i].task != s.ready[j].task by {
                if i < v.ready.len() && j < v.ready.len() {
                    assert(s.ready[i] == v.ready[i]);
                    assert(s.ready[j] == v.ready[j]);
                } else if i < v.ready.len() {
                    assert(s.ready[i] == v.ready[i]);
                } else {
                    assert(s.ready[j] == v.ready[j]);
                }
            }
        }
    }

    /// The running task sleeps until time `deadline`; a deadline already past
    /// means the current time.
    pub fn sleep_until(&mut self, deadline: u64)
        requires
            old(self).wf(),
            old(self)@.running is Some,
            old(self)@.next_seq < u64::MAX,
        ensures
            final(self).wf(),
            ({
                let t = old(self)@.running->Some_0;
                let d = if deadline < old(self)@.now { old(self)@.now } else { deadline };
                final(self)@ == (SchedView {
                    next_seq: (old(self)@.next_seq + 1) as u64,
                    timers: old(self)@.timers.push(
                        Timer {
                            deadline: d,
                            key: tie_key(old(self)@.seed, old(self)@.next_seq),
                            seq: old(self)@.next_seq,
                            task: t,
                        },
                    ),
                    tasks: old(self)@.with_status(t as int, TaskStatus::Pending),
                    running: None,
                    ..old(self)@
                })
            }),
    {
        let t = match self.running {
            Some(t) => t,
            None => 0,
        };
        let d = if deadline < self.now { self.now } else { deadline };
        proof {
            lemma_stop_running(self@, t, TaskStatus::Pending);
        }
        let info = self.tasks[t];
        self.tasks.set(t, TaskInfo { status: TaskStatus::Pending, ..info });
        self.running = None;
        let seq = self.next_seq;
        let key = mix64(self.seed ^ seq);
        self.timers.push(Timer { deadline: d, key, seq, task: t });
        self.next_seq = seq + 1;
    }

    /// The running task sleeps for `duration` time units (up to the end of
    /// time, where the sum would overflow).
    pub fn sleep_for(&mut self, duration: u64)
        requires
            old(self).wf(),
            old(self)@.running is Some,
            old(self)@.next_seq < u64::MAX,
        ensures
            final(self).wf(),
            ({
                let t = old(self)@.running->Some_0;
                let d = if old(self)@.now + duration > u64::MAX {
                    u64::MAX
                } else {
                    (old(self)@.now + duration) as u64
                };
                final(self)@ == (SchedView {
                    next_seq: (old(self)@.next_seq + 1) as u64,
                    timers: old(self)@.timers.push(
                        Timer {
                            deadline: d,
                            key: tie_key(old(self)@.seed, old(self)@.next_seq),
                            seq: old(self)@.next_seq,
                            task: t,
                        },
                    ),
                    tasks: old(self)@.with_status(t as int, TaskStatus::Pending),
                    running: None,
                    ..old(self)@
                })
            }),
    {
        let d = self.now.saturating_add(duration);
        self.sleep_until(d);
    }

    /// The running task suspends until something wakes it (a message, or
    /// another task).
    pub fn suspend(&mut self)
        requires
            old(self).wf(),
            old(self)@.running is Some,
        ensures
            final(self).wf(),
            ({
                let t = old(self)@.running->Some_0;
                final(self)@ == (SchedView {
                    tasks: old(self)@.with_status(t as int, TaskStatus::Pending),
                    running: None,
                    ..old(self)@
                })
            }),
    {
        let t = match self.running {
            Some(t) => t,
            None => 0,
        };
        proof {
            lemma_stop_running(self@, t, TaskStatus::Pending);
        }
        let info = self.tasks[t];
        self.tasks.set(t, TaskInfo { status: TaskStatus::Pending, ..info });
        self.running = None;
    }

    /// Makes a suspended task runnable again; its timers no longer fire. A
    /// task in any other state is left as it is.
    pub fn wake(&mut self, t: usize)
        requires
            old(self).wf(),
            t < old(self)@.tasks.len(),
            old(self)@.next_seq < u64::MAX,
        ensures
            final(self).wf(),
            old(self)@.tasks[t as int].status != TaskStatus::Pending ==> final(self)@ == old(self)@,
            old(self)@.tasks[t as int].status == TaskStatus::Pending ==> final(self)@ == (SchedView {
                next_seq: (old(self)@.next_seq + 1) as u64,
                ready: old(self)@.ready.push(
                    Ready { key: tie_key(old(self)@.seed, old(self)@.next_seq), seq: old(self)@.next_seq, task: t },
                ),
                timers: timers_without(old(self)@.timers, t),
                tasks: old(self)@.with_status(t as int, TaskStatus::Runnable),
                ..old(self)@
            }),
    {
        if self.tasks[t].status != TaskStatus::Pending {
            return;
        }
        let ghost v = self@;
        self.timers = drop_timers_of(&self.timers, t);
        let info = self.tasks[t];
        self.tasks.set(t, TaskInfo { status: TaskStatus::Runnable, ..info });
        proof {
            let pred = |x: Timer| x.task != t;
            lemma_filter_keeps_only_others(v.timers, pred);
            lemma_filter_unique_timer_seqs(v.timers, pred);
            assert forall|i: int| 0 <= i < self@.timers.len() implies {
                let x = #[trigger] self@.timers[i];
                &&& x.task < self@.tasks.len()
                &&& self@.tasks[x.task as int].status == TaskStatus::Pending
                &&& x.key == tie_key(self@.seed, x.seq)
                &&& x.seq < self@.next_seq
                &&& x.deadline >= self@.now
            } by {
                let x = self@.timers[i];
                assert(pred(x));
                let j = choose|j: int| 0 <= j < v.timers.len() && v.timers[j] == x;
            }
            assert forall|i: int| 0 <= i < self@.ready.len() implies self@.ready[i].task != t by {
                assert(v.ready[i] == self@.ready[i]);
            }
        }
        self.enqueue(t);
        proof {
            let s = self@;
            assert forall|i: int, j: int|
                0 <= i < s.ready.len() && 0 <= j < s.ready.len() && i != j implies s.ready[i].seq
                != s.ready[j].seq && s.ready[i].task != s.ready[j].task by {
                if i < v.ready.len() && j < v.ready.len() {
                    assert(s.ready[i] == v.ready[i]);
                    assert(s.ready[j] == v.ready[j]);
                } else if i < v.ready.len() {
                    assert(s.ready[i] == v.ready[i]);
                } else {
                    assert(s.ready[j] == v.ready[j]);
                }
            }
        }
    }

    /// The running task finishes.
    pub fn complete(&mut self)
        requires
            old(self).wf(),
            old(self)@.running is Some,
        ensures
            final(self).wf(),
            ({
                let t = old(self)@.running->Some_0;
                final(self)@ == (SchedView {
                    tasks: old(self)@.with_status(t as int, TaskStatus::Completed),
                    running: None,
                    ..old(self)@
                })
            }),
    {
        let t = match self.running {
            Some(t) => t,
            None => 0,
        };
        proof {
            lemma_stop_running(self@, t, TaskStatus::Completed);
        }
        let info = self.tasks[t];
        self.tasks.set(t, TaskInfo { status: TaskStatus::Completed, ..info });
        self.running = None;
    }

    /// Cancels task `t`: it never runs again, and its queued turns and timers
    /// are dropped without firing. A finished task stays finished.
    pub fn cancel(&mut self, t: usize)
        requires
            old(self).wf(),
            t < old(self)@.tasks.len(),
        ensures
            final(self).wf(),
            old(self)@.tasks[t as int].status == TaskStatus::Completed ==> final(self)@ == old(self)@,
            old(self)@.tasks[t as int].status != TaskStatus::Completed ==> final(self)@ == (SchedView {
                ready: ready_without(old(self)@.ready, t),
                timers: timers_without(old(self)@.timers, t),
                tasks: old(self)@.with_status(t as int, TaskStatus::Cancelled),
                running: if old(self)@.running == Some(t) {
                    None
                } else {
                    old(self)@.running
                },
                ..old(self)@
            }),
    {
        if self.tasks[t].status == TaskStatus::Completed {
            return;
        }
        let ghost v = self@;
        self.ready = drop_ready_of(&self.ready, t);
        self.timers = drop_timers_of(&self.timers, t);
        let info = self.tasks[t];
        self.tasks.set(t, TaskInfo { status: TaskStatus::Cancelled, ..info });
        if let Some(r) = self.running {
            if r == t {
                self.running = None;
            }
        }
        proof {
            let pt = |x: Timer| x.task != t;
            let pr = |x: Ready| x.task != t;
            lemma_filter_keeps_only_others(v.timers, pt);
            lemma_filter_unique_timer_seqs(v.timers, pt);
            lemma_filter_keeps_only_others(v.ready, pr);
            lemma_filter_unique_seqs(v.ready, pr);
            lemma_filter_unique_tasks(v.ready, pr);
            assert forall|u: usize|
                u < self@.tasks.len() && #[trigger] self@.tasks[u as int].status == TaskStatus::Running implies self@.running
                == Some(u) by {
                assert(v.tasks[u as int] == self@.tasks[u as int]);
            }
            assert forall|i: int| 0 <= i < self@.timers.len() implies {
                let x = #[trigger] self@.timers[i];
                &&& x.task < self@.tasks.len()
                &&& self@.tasks[x.task as int].status == TaskStatus::Pending
                &&& x.key == tie_key(self@.seed, x.seq)
                &&& x.seq < self@.next_seq
                &&& x.deadline >= self@.now
            } by {
                let x = self@.timers[i];
                assert(pt(x));
                let j = choose|j: int| 0 <= j < v.timers.len() && v.timers[j] == x;
            }
            assert forall|i: int| 0 <= i < self@.ready.len() implies {
                let x = #[trigger] self@.ready[i];
                &&& x.task < self@.tasks.len()
                &&& self@.tasks[x.task as int].status == TaskStatus::Runnable
                &&& x.key == tie_key(self@.seed, x.seq)
                &&& x.seq < self@.next_seq
            } by {
                let x = self@.ready[i];
                assert(pr(x));
                let j = choose|j: int| 0 <= j < v.ready.len() && v.ready[j] == x;
            }
        }
    }
}

/// The clock never goes back: a step leaves it or moves it to a timer's
/// deadline, and no pending timer lies in the past.
pub proof fn lemma_clock_never_regresses(v: SchedView, w: SchedView, r: Option<usize>)
    requires
        v.wf(),
        stepped(v, w, r),
    ensures
        w.now >= v.now,
{
    if v.ready.len() == 0 && v.timers.len() > 0 {
        let b = choose|b: int| first_timer(v.timers, b) && r == Some(v.timers[b].task) && w == (SchedView {
            now: v.timers[b].deadline,
            timers: timers_without(v.timers, v.timers[b].task),
            tasks: v.with_status(v.timers[b].task as int, TaskStatus::Running),
            running: r,
            ..v
        });
        assert(v.timers[b].deadline >= v.now);
    }
}

/// The next task to run does not depend on how the runnable work happens to
/// be stored: two queues that hold the same entries, each sequence number
/// once, put the same entry first.
pub proof fn lemma_choice_is_order_independent(s1: Seq<Ready>, s2: Seq<Ready>, i1: int, i2: int)
    requires
        unique_seqs(s1),
        forall|x: Ready| s1.contains(x) <==> s2.contains(x),
        first_ready(s1, i1),
        first_ready(s2, i2),
    ensures
        s1[i1] == s2[i2],
{
    assert(s1.contains(s1[i1]));
    assert(s2.contains(s2[i2]));
    let j1 = choose|j: int| 0 <= j < s2.len() && s2[j] == s1[i1];
    let j2 = choose|j: int| 0 <= j < s1.len() && s1[j] == s2[i2];
    assert(!ready_before(s2[j1], s2[i2]));
    assert(!ready_before(s1[j2], s1[i1]));
}

/// Scheduling is deterministic: from one state a step can end in one way
/// only, with the same task run, the same clock reading and the same state
/// after it. Runs from the same seed through the same calls therefore agree.
pub proof fn lemma_step_deterministic(v: SchedView, w1: SchedView, r1: Option<usize>, w2: SchedView, r2: Option<usize>)
    requires
        v.wf(),
        stepped(v, w1, r1),
        stepped(v, w2, r2),
    ensures
        w1 == w2,
        r1 == r2,
{
    if v.ready.len() > 0 {
        let b1 = choose|b: int| first_ready(v.ready, b) && r1 == Some(v.ready[b].task) && w1 == (SchedView {
            ready: v.ready.remove(b),
            tasks: v.with_status(v.ready[b].task as int, TaskStatus::Running),
            running: r1,
            ..v
        });
        let b2 = choose|b: int| first_ready(v.ready, b) && r2 == Some(v.ready[b].task) && w2 == (SchedView {
            ready: v.ready.remove(b),
            tasks: v.with_status(v.ready[b].task as int, TaskStatus::Running),
            running: r2,
            ..v
        });
        lemma_choice_is_order_independent(v.ready, v.ready, b1, b2);
        assert(v.ready[b1].seq == v.ready[b2].seq);
    } else if v.timers.len() > 0 {
        let b1 = choose|b: int| first_timer(v.timers, b) && r1 == Some(v.timers[b].task) && w1 == (SchedView {
            now: v.timers[b].deadline,
            timers: timers_without(v.timers, v.timers[b].task),
            tasks: v.with_status(v.timers[b].task as int, TaskStatus::Running),
            running: r1,
            ..v
        });
        let b2 = choose|b: int| first_timer(v.timers, b) && r2 == Some(v.timers[b].task) && w2 == (SchedView {
            now: v.timers[b].deadline,
            timers: timers_without(v.timers, v.timers[b].task),
            tasks: v.with_status(v.timers[b].task as int, TaskStatus::Running),
            running: r2,
            ..v
        });
        assert(!timer_before(v.timers[b1], v.timers[b2]));
        assert(!timer_before(v.timers[b2], v.timers[b1]));
        assert(v.timers[b1].seq == v.timers[b2].seq);
    }
}

} // verus!
