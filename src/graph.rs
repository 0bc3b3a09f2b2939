//! The task graph of one experiment: one preparation task per package, one
//! execution task per (package, toolchain), and a root that waits for all of
//! them. Workers take ready tasks from it and report their outcomes back.
use vstd::prelude::*;
use crate::results::TestResult;

verus! {

/// What is done with each (package, toolchain) pair.
#[derive(Clone, Copy, Debug, PartialEq, Eq, Structural)]
pub enum Mode {
    BuildAndTest,
    BuildOnly,
    Clippy,
}

#[derive(Clone, Copy, Debug, PartialEq, Eq, Structural)]
pub enum TaskKind {
    Prepare,
    BuildAndTest,
    BuildOnly,
    Lint,
    Root,
}

#[derive(Clone, Copy, Debug, PartialEq, Eq, Structural)]
pub enum TaskState {
    Waiting,
    Ready,
    Running,
    Done(TestResult),
    Failed(TestResult),
}

impl TaskState {
    pub open spec fn terminal(self) -> bool {
        self is Done || self is Failed
    }

    pub fn is_terminal(&self) -> (r: bool)
        ensures
            r == self.terminal(),
    {
        match self {
            TaskState::Done(_) | TaskState::Failed(_) => true,
            _ => false,
        }
    }
}

/// How a task that ran ended.
#[derive(Clone, Copy, Debug, PartialEq, Eq, Structural)]
pub enum Outcome {
    Done(TestResult),
    Failed(TestResult),
}

impl Outcome {
    pub open spec fn state(self) -> TaskState {
        match self {
            Outcome::Done(r) => TaskState::Done(r),
            Outcome::Failed(r) => TaskState::Failed(r),
        }
    }
}

/// One node of the graph. `prep` is the index of the package's preparation
/// task, which is the node itself for a preparation task.
#[derive(Clone, Copy, Debug, PartialEq, Eq, Structural)]
pub struct Task {
    pub kind: TaskKind,
    pub krate: u64,
    pub toolchain: u64,
    pub prep: usize,
    pub state: TaskState,
}

/// What a worker is told to do next.
#[derive(Clone, Copy, Debug, PartialEq, Eq, Structural)]
pub enum Decision {
    /// Run the task with this index, then report it with `mark_complete`.
    Task(usize),
    /// Nothing is ready, but some task is still running.
    Blocked,
    /// Every task has ended: only the root is left.
    Finished,
}

pub struct TasksGraph {
    tasks: Vec<Task>,
    ready: Vec<usize>,
}

/// Whether each state may follow the other in one step of the graph: a task
/// runs only once it was ready, is done only once it ran, and a waiting task
/// may be failed without running when its package could not be prepared.
pub open spec fn valid_step(a: TaskState, b: TaskState) -> bool {
    a == b || (a is Waiting && b is Ready) || (a is Ready && b is Running) || (a is Running
        && b.terminal()) || (a is Waiting && b == TaskState::Failed(TestResult::PrepareFailed))
}

impl TasksGraph {
    pub closed spec fn view(&self) -> Seq<Task> {
        self.tasks@
    }

    pub closed spec fn ready_queue(&self) -> Seq<usize> {
        self.ready@
    }

    pub open spec fn root(&self) -> int {
        self@.len() - 1
    }

    /// Whether task `c` belongs to the package prepared by task `i` without
    /// being that preparation itself.
    pub open spec fn child_of(&self, c: int, i: int) -> bool {
        0 <= c < self.root() && self@[c].prep == i && c != i
    }

    /// The graph of an experiment over `crates` and `toolchains`: for each
    /// package in turn, its preparation, ready at once, then one task of the
    /// mode's kind per toolchain, waiting for the preparation; the root last.
    pub fn build_graph(crates: &Vec<u64>, toolchains: &Vec<u64>, mode: Mode) -> (r: Self)
        requires
            toolchains@.len() < usize::MAX,
            crates@.len() * (toolchains@.len() + 1) + 1 <= usize::MAX,
        ensures
            r.wf(),
            r@.len() == crates@.len() * (toolchains@.len() + 1) + 1,
            laid_out(r@, r.ready_queue(), crates@, toolchains@, mode, crates@.len() as int),
            r@[r.root()] == root_task(),
            r.ready_queue().len() == crates@.len(),
            crates@.len() == 0 ==> r@.len() == 1 && r.drained(),
    {
        let ghost nk = crates@.len() as int;
        let b: usize = toolchains.len() + 1;
        let ghost bi = b as int;
        let kind = match mode {
            Mode::BuildAndTest => TaskKind::BuildAndTest,
            Mode::BuildOnly => TaskKind::BuildOnly,
            Mode::Clippy => TaskKind::Lint,
        };
        let mut tasks: Vec<Task> = Vec::new();
        let mut ready: Vec<usize> = Vec::new();
        proof {
            reveal(build_ok);
            assert(0 * bi == 0) by (nonlinear_arith);
        }
        let mut k: usize = 0;
        while k < crates.len()
            invariant
                b == toolchains@.len() + 1,
                bi == b,
                nk == crates@.len(),
                nk * bi + 1 <= usize::MAX,
                k <= nk,
                tasks@.len() == slot(k as int, bi, 0),
                slot(k as int, bi, 0) <= nk * bi,
                ready@.len() == k,
                kind == exec_kind(mode),
                build_ok(tasks@, ready@),
                laid_out(tasks@, ready@, crates@, toolchains@, mode, k as int),
            decreases nk - k,
        {
            proof {
                lemma_block_end(k as int, bi, nk);
            }
            let p = tasks.len();
            let x = Task { kind: TaskKind::Prepare, krate: crates[k], toolchain: 0, prep: p, state: TaskState::Ready };
            proof {
                lemma_push_prepare(tasks@, ready@, x);
                lemma_laid_out_push(tasks@, ready@, x, ready@.push(p), crates@, toolchains@, mode, k as int);
            }
            tasks.push(x);
            ready.push(p);
            let mut j: usize = 0;
            while j < toolchains.len()
                invariant
                    b == toolchains@.len() + 1,
                    bi == b,
                    nk == crates@.len(),
                    k < nk,
                    j <= toolchains@.len(),
                    p == slot(k as int, bi, 0),
                    tasks@.len() == slot(k as int, bi, 1 + j),
                    slot(k as int, bi, b as int) <= nk * bi,
                    nk * bi + 1 <= usize::MAX,
                    ready@.len() == k + 1,
                    kind == exec_kind(mode),
                    build_ok(tasks@, ready@),
                    tasks@[p as int] == prepare_task(crates@[k as int], p as int),
                    ready@[k as int] == p,
                    laid_out(tasks@, ready@, crates@, toolchains@, mode, k as int),
                    forall|j1: int| 0 <= j1 < j ==> #[trigger] tasks@[slot(k as int, bi, 1 + j1)] == exec_task(
                        mode,
                        crates@[k as int],
                        toolchains@[j1],
                        p as int,
                    ),
                decreases toolchains@.len() - j,
            {
                let y = Task { kind, krate: crates[k], toolchain: toolchains[j], prep: p, state: TaskState::Waiting };
                proof {
                    lemma_push_exec(tasks@, ready@, y);
                    lemma_laid_out_push(tasks@, ready@, y, ready@, crates@, toolchains@, mode, k as int);
                }
                tasks.push(y);
                j = j + 1;
            }
            proof {
                assert forall|k1: int, j1: int|
                    0 <= k1 < k + 1 && 0 <= j1 < toolchains@.len() implies slot(k1, bi, 1 + j1) < tasks@.len()
                        && #[trigger] tasks@[slot(k1, bi, 1 + j1)] == exec_task(mode, crates@[k1], toolchains@[j1], slot(k1, bi, 0)) by {
                    if k1 == k {
                        assert(tasks@[slot(k as int, bi, 1 + j1)] == exec_task(mode, crates@[k as int], toolchains@[j1], p as int));
                    }
                }
            }
            k = k + 1;
        }
        proof {
            lemma_push_root(tasks@, ready@);
            lemma_laid_out_push(tasks@, ready@, root_task(), ready@, crates@, toolchains@, mode, nk);
        }
        tasks.push(Task { kind: TaskKind::Root, krate: 0, toolchain: 0, prep: 0, state: TaskState::Waiting });
        proof {
            assert(nk * bi == crates@.len() * (toolchains@.len() + 1));
            if nk == 0 {
                assert(nk * bi == 0) by (nonlinear_arith)
                    requires
                        nk == 0,
                ;
            }
        }
        TasksGraph { tasks, ready }
    }

    /// Number of nodes, the root included.
    pub fn len(&self) -> (r: usize)
        requires
            self.wf(),
        ensures
            r == self@.len(),
            r >= 1,
    {
        self.tasks.len()
    }

    pub fn task(&self, i: usize) -> (r: Task)
        requires
            i < self@.len(),
        ensures
            r == self@[i as int],
    {
        self.tasks[i]
    }

    /// Number of tasks waiting in the ready queue.
    pub fn ready_count(&self) -> (r: usize)
        ensures
            r == self.ready_queue().len(),
    {
        self.ready.len()
    }

    /// Whether the package prepared by task `p` has a task that has not ended.
    pub open spec fn package_pending(&self, p: int) -> bool {
        &&& 0 <= p < self.root()
        &&& self@[p].kind == TaskKind::Prepare
        &&& exists|c: int| 0 <= c < self.root() && (#[trigger] self@[c]).prep as int == p && !self@[c].state.terminal()
    }

    /// Number of pending packages among those prepared by the first `m` tasks.
    pub open spec fn count_pending(&self, m: int) -> nat
        decreases m,
    {
        if m <= 0 {
            0
        } else {
            self.count_pending(m - 1) + if self.package_pending(m - 1) { 1nat } else { 0nat }
        }
    }

    pub fn package_has_unfinished(&self, p: usize) -> (r: bool)
        requires
            self.wf(),
            p < self.root(),
            self@[p as int].kind == TaskKind::Prepare,
        ensures
            r == self.package_pending(p as int),
    {
        let root = self.tasks.len() - 1;
        let mut c: usize = 0;
        while c < root
            invariant
                root == self@.len() - 1,
                c <= root,
                p < root,
                self@[p as int].kind == TaskKind::Prepare,
                forall|j: int| 0 <= j < c ==> !((#[trigger] self@[j]).prep == p && !self@[j].state.terminal()),
            decreases root - c,
        {
            let x = self.tasks[c];
            if x.prep == p && !x.state.is_terminal() {
                assert(self@[c as int].prep as int == p as int);
                return true;
            }
            c = c + 1;
        }
        false
    }

    /// Number of packages with a task that has not ended.
    pub fn pending_crates_count(&self) -> (r: usize)
        requires
            self.wf(),
        ensures
            r == self.count_pending(self.root()),
    {
        let root = self.tasks.len() - 1;
        let mut count: usize = 0;
        let mut p: usize = 0;
        while p < root
            invariant
                self.wf(),
                root == self@.len() - 1,
                p <= root,
                count == self.count_pending(p as int),
                count <= p,
            decreases root - p,
        {
            if self.tasks[p].kind == TaskKind::Prepare && self.package_has_unfinished(p) {
                count = count + 1;
            }
            p = p + 1;
        }
        count
    }

    /// Whether every task has ended, the root aside.
    pub open spec fn drained(&self) -> bool {
        forall|i: int| 0 <= i < self.root() ==> (#[trigger] self@[i]).state.terminal()
    }

    /// Takes the oldest ready task and marks it running; without one, tells
    /// whether some task is still running or all have ended.
    pub fn next_task(&mut self) -> (d: Decision)
        requires
            old(self).wf(),
        ensures
            final(self).wf(),
            final(self)@.len() == old(self)@.len(),
            forall|i: int| 0 <= i < old(self)@.len() ==> valid_step(
                #[trigger] old(self)@[i].state,
                final(self)@[i].state,
            ),
            old(self).ready_queue().len() > 0 ==> {
                let t = old(self).ready_queue()[0];
                &&& d == Decision::Task(t)
                &&& old(self)@[t as int].state is Ready
                &&& old(self)@[t as int].kind != TaskKind::Prepare ==> old(self)@[old(self)@[t as int].prep as int].state is Done
                &&& final(self)@ == old(self)@.update(
                    t as int,
                    with_state(old(self)@[t as int], TaskState::Running),
                )
                &&& final(self).ready_queue() == old(self).ready_queue().drop_first()
            },
            old(self).ready_queue().len() == 0 && !old(self).drained() ==> {
                &&& d == Decision::Blocked
                &&& final(self)@ == old(self)@
                &&& final(self).ready_queue() == old(self).ready_queue()
                &&& exists|i: int| 0 <= i < old(self).root() && (#[trigger] old(self)@[i]).state is Running
            },
            old(self).ready_queue().len() == 0 && old(self).drained() ==> {
                &&& d == Decision::Finished
                &&& final(self)@ == old(self)@.update(
                    old(self).root(),
                    with_state(old(self)@[old(self).root()], TaskState::Ready),
                )
                &&& final(self).ready_queue() == old(self).ready_queue()
            },
    {
        if self.ready.len() > 0 {
            let t = self.take_ready();
            return Decision::Task(t);
        }
        match self.first_unfinished() {
            Some(i) => {
                proof {
                    reveal(nodes_ok);
                    reveal(queue_ok);
                    assert(node_ok(self.tasks@, i as int));
                    let x = self.tasks@[i as int];
                    assert(!self.ready@.contains(i));
                    if x.state is Waiting {
                        let p = x.prep as int;
                        assert(node_ok(self.tasks@, p));
                        assert(!self.ready@.contains(p as usize));
                        assert(self.tasks@[p].state is Running);
                    }
                }
                Decision::Blocked
            },
            None => {
                let root = self.tasks.len() - 1;
                let mut r = self.tasks[root];
                r.state = TaskState::Ready;
                self.tasks.set(root, r);
                proof {
                    reveal(nodes_ok);
                    reveal(queue_ok);
                    assert forall|i: int| 0 <= i < self.tasks@.len() - 1 implies #[trigger] node_ok(self.tasks@, i) by {
                        assert(node_ok(old(self).tasks@, i));
                    }
                    assert forall|i: int| 0 <= i < self.tasks@.len() - 1 implies (#[trigger] self.tasks@[i].state is Ready
                        <==> self.ready@.contains(i as usize)) by {
                        assert(self.tasks@[i] == old(self).tasks@[i]);
                    }
                }
                Decision::Finished
            },
        }
    }

    /// Records how the running task `t` ended. When `t` prepared a package,
    /// the package's tasks become ready if it is done, in the order of their
    /// indices, and are failed with `PrepareFailed` without running if it
    /// failed.
    pub fn mark_complete(&mut self, t: usize, outcome: Outcome)
        requires
            old(self).wf(),
            t < old(self).root(),
            old(self)@[t as int].state is Running,
        ensures
            final(self).wf(),
            final(self)@.len() == old(self)@.len(),
            forall|i: int| 0 <= i < old(self)@.len() ==> #[trigger] final(self)@[i] == with_state(
                old(self)@[i],
                state_after(old(self)@, t as int, outcome, i),
            ),
            forall|i: int| 0 <= i < old(self)@.len() ==> valid_step(
                #[trigger] old(self)@[i].state,
                final(self)@[i].state,
            ),
            old(self)@[t as int].kind == TaskKind::Prepare && outcome is Failed ==> forall|c: int|
                old(self).child_of(c, t as int) ==> #[trigger] final(self)@[c].state == TaskState::Failed(
                    TestResult::PrepareFailed,
                ),
            final(self).ready_queue().subrange(0, old(self).ready_queue().len() as int) == old(
                self,
            ).ready_queue(),
            strictly_increasing(
                final(self).ready_queue().subrange(
                    old(self).ready_queue().len() as int,
                    final(self).ready_queue().len() as int,
                ),
            ),
            forall|k: int|
                old(self).ready_queue().len() <= k < final(self).ready_queue().len() ==> old(
                    self,
                ).child_of(#[trigger] final(self).ready_queue()[k] as int, t as int),
    {
        let ghost g0 = self.tasks@;
        let ghost q0 = self.ready@;
        proof {
            reveal(nodes_ok);
            assert(node_ok(g0, t as int));
        }
        let kind = self.tasks[t].kind;
        let mut x = self.tasks[t];
        x.state = match outcome {
            Outcome::Done(r) => TaskState::Done(r),
            Outcome::Failed(r) => TaskState::Failed(r),
        };
        self.tasks.set(t, x);
        if kind == TaskKind::Prepare {
            let n1 = self.tasks.len() - 1;
            let mut i: usize = 0;
            while i < n1
                invariant
                    n1 == g0.len() - 1,
                    i <= n1,
                    t < n1,
                    self.tasks@.len() == g0.len(),
                    g0[t as int].kind == TaskKind::Prepare,
                    forall|j: int| 0 <= j < i ==> #[trigger] self.tasks@[j] == with_state(
                        g0[j],
                        state_after(g0, t as int, outcome, j),
                    ),
                    forall|j: int| i <= j < g0.len() && j != t ==> #[trigger] self.tasks@[j] == g0[j],
                    self.tasks@[t as int] == with_state(g0[t as int], outcome.state()),
                    self.ready@.len() >= q0.len(),
                    self.ready@.subrange(0, q0.len() as int) == q0,
                    strictly_increasing(self.ready@.subrange(q0.len() as int, self.ready@.len() as int)),
                    forall|k: int| q0.len() <= k < self.ready@.len() ==> {
                        let c = #[trigger] self.ready@[k] as int;
                        &&& 0 <= c < i
                        &&& c != t
                        &&& g0[c].prep == t
                        &&& outcome is Done
                    },
                    forall|j: int| 0 <= j < i && j != t && g0[j].prep == t && outcome is Done
                        ==> #[trigger] self.ready@.contains(j as usize),
                decreases n1 - i,
            {
                let c = self.tasks[i];
                if c.prep == t && i != t {
                    let mut y = c;
                    match outcome {
                        Outcome::Done(_) => {
                            y.state = TaskState::Ready;
                            self.tasks.set(i, y);
                            let ghost qb = self.ready@;
                            self.ready.push(i);
                            proof {
                                assert(self.ready@[self.ready@.len() - 1] == i);
                                assert(self.ready@.subrange(0, q0.len() as int) =~= qb.subrange(0, q0.len() as int));
                                assert forall|k: int| q0.len() <= k < self.ready@.len() - 1 implies #[trigger] self.ready@[k] == qb[k] by {}
                                let s1 = self.ready@.subrange(q0.len() as int, self.ready@.len() as int);
                                let s0 = qb.subrange(q0.len() as int, qb.len() as int);
                                assert forall|a: int, b: int| 0 <= a < b < s1.len() implies s1[a] < s1[b] by {
                                    assert(s1[a] == qb[a + q0.len()]);
                                    if b < s1.len() - 1 {
                                        assert(s1[b] == s0[b] && s1[a] == s0[a]);
                                    }
                                }
                                assert forall|j: int| 0 <= j < i && j != t && g0[j].prep == t && outcome is Done
                                    implies #[trigger] self.ready@.contains(j as usize) by {
                                    assert(qb.contains(j as usize));
                                    let k = choose|k: int| 0 <= k < qb.len() && qb[k] == j as usize;
                                    assert(self.ready@[k] == j as usize);
                                }
                            }
                        },
                        Outcome::Failed(_) => {
                            y.state = TaskState::Failed(TestResult::PrepareFailed);
                            self.tasks.set(i, y);
                        },
                    }
                }
                i = i + 1;
            }
        }
        proof {
            if kind != TaskKind::Prepare {
                assert(self.ready@ == q0);
                assert(self.ready@.subrange(0, q0.len() as int) =~= q0);
                assert(self.ready@.subrange(q0.len() as int, self.ready@.len() as int) =~= Seq::<usize>::empty());
                assert forall|i: int| 0 <= i < g0.len() implies #[trigger] self.tasks@[i] == with_state(
                    g0[i],
                    state_after(g0, t as int, outcome, i),
                ) by {}
            }
            lemma_complete_wf(g0, q0, self.tasks@, self.ready@, t as int, outcome);
        }
    }

    /// Whether every task before the root has ended.
    pub fn is_drained(&self) -> (r: bool)
        requires
            self.wf(),
        ensures
            r == self.drained(),
    {
        self.first_unfinished().is_none()
    }

    fn first_unfinished(&self) -> (r: Option<usize>)
        requires
            self.wf(),
        ensures
            match r {
                Some(i) => i < self.root() && !self@[i as int].state.terminal(),
                None => self.drained(),
            },
    {
        let root = self.tasks.len() - 1;
        let mut i: usize = 0;
        while i < root
            invariant
                root == self.tasks@.len() - 1,
                i <= root,
                forall|j: int| 0 <= j < i ==> (#[trigger] self.tasks@[j]).state.terminal(),
            decreases root - i,
        {
            if !self.tasks[i].state.is_terminal() {
                return Some(i);
            }
            i = i + 1;
        }
        None
    }

    fn take_ready(&mut self) -> (t: usize)
        requires
            old(self).wf(),
            old(self).ready@.len() > 0,
        ensures
            final(self).wf(),
            t == old(self).ready@[0],
            t < old(self)@.len() - 1,
            old(self)@[t as int].state is Ready,
            old(self)@[t as int].kind != TaskKind::Prepare ==> old(self)@[old(self)@[t as int].prep as int].state is Done,
            final(self)@ == old(self)@.update(t as int, with_state(old(self)@[t as int], TaskState::Running)),
            final(self).ready@ == old(self).ready@.drop_first(),
    {
        proof {
            reveal(nodes_ok);
            reveal(queue_ok);
        }
        let t = self.ready.remove(0);
        assert(old(self).ready@.contains(t));
        assert(node_ok(old(self).tasks@, t as int));
        assert(node_ok(old(self).tasks@, old(self).tasks@[t as int].prep as int));
        let mut x = self.tasks[t];
        x.state = TaskState::Running;
        self.tasks.set(t, x);
        assert(self.tasks@ == old(self)@.update(t as int, with_state(old(self)@[t as int], TaskState::Running)));
        assert(self.ready@ =~= old(self).ready@.drop_first());
        proof {
            assert forall|i: int| 0 <= i < self.tasks@.len() - 1 implies (self.tasks@[i].state is Ready
                <==> self.ready@.contains(i as usize)) by {
                if i == t {
                    if self.ready@.contains(t) {
                        let k = choose|k: int| 0 <= k < self.ready@.len() && self.ready@[k] == t;
                        assert(old(self).ready@[k + 1] == t);
                    }
                } else if old(self).tasks@[i].state is Ready {
                    let iu = i as usize;
                    assert(iu as int == i);
                    assert(iu != t);
                    assert(old(self).ready@.contains(i as usize));
                    let k = choose|k: int| 0 <= k < old(self).ready@.len() && old(self).ready@[k] == i as usize;
                    assert(k != 0);
                    assert(self.ready@[k - 1] == i as usize);
                } else if self.ready@.contains(i as usize) {
                    let k = choose|k: int| 0 <= k < self.ready@.len() && self.ready@[k] == i as usize;
                    assert(old(self).ready@[k + 1] == i as usize);
                }
            }
            assert forall|k: int| 0 <= k < self.ready@.len() implies #[trigger] self.ready@[k] < self.tasks@.len() - 1 by {
                assert(self.ready@[k] == old(self).ready@[k + 1]);
            }
            assert forall|i: int| 0 <= i < self.tasks@.len() - 1 implies #[trigger] node_ok(self.tasks@, i) by {
                assert(node_ok(old(self).tasks@, i));
                assert(node_ok(old(self).tasks@, t as int));
        assert(node_ok(old(self).tasks@, old(self).tasks@[t as int].prep as int));
            }
        }
        t
    }

    pub closed spec fn wf(&self) -> bool {
        let n = self.tasks@.len();
        &&& 1 <= n <= usize::MAX
        &&& self.tasks@[n - 1].kind == TaskKind::Root
        &&& self.tasks@[n - 1].state is Waiting || self.tasks@[n - 1].state is Ready
        &&& nodes_ok(self.tasks@)
        &&& queue_ok(self.tasks@, self.ready@)
    }
}

/// Shape of the nodes before the root, and how each task's state stands to
/// that of its package's preparation.
#[verifier::opaque]
pub open spec fn nodes_ok(t: Seq<Task>) -> bool {
    forall|i: int| 0 <= i < t.len() - 1 ==> #[trigger] node_ok(t, i)
}

pub open spec fn node_ok(t: Seq<Task>, i: int) -> bool {
    let x = t[i];
    &&& x.kind != TaskKind::Root
    &&& x.prep < t.len() - 1
    &&& t[x.prep as int].kind == TaskKind::Prepare
    &&& (x.kind == TaskKind::Prepare) == (x.prep == i)
    &&& x.kind == TaskKind::Prepare ==> !(x.state is Waiting)
    &&& x.kind != TaskKind::Prepare ==> child_ok(t[x.prep as int].state, x.state)
}

/// The ready queue holds each ready task once, and nothing else.
#[verifier::opaque]
pub open spec fn queue_ok(t: Seq<Task>, q: Seq<usize>) -> bool {
    &&& q.no_duplicates()
    &&& forall|k: int| 0 <= k < q.len() ==> #[trigger] q[k] < t.len() - 1
    &&& forall|i: int| 0 <= i < t.len() - 1 ==> (#[trigger] t[i].state is Ready <==> q.contains(i as usize))
}

/// The state of task `i` after task `t` ended with `outcome`: the children of
/// a preparation become ready when it is done, and are failed without running
/// when it failed.
pub open spec fn state_after(g: Seq<Task>, t: int, outcome: Outcome, i: int) -> TaskState {
    if i == t {
        outcome.state()
    } else if g[t].kind == TaskKind::Prepare && 0 <= i < g.len() - 1 && g[i].prep == t {
        match outcome {
            Outcome::Done(_) => TaskState::Ready,
            Outcome::Failed(_) => TaskState::Failed(TestResult::PrepareFailed),
        }
    } else {
        g[i].state
    }
}

pub open spec fn with_state(x: Task, s: TaskState) -> Task {
    Task { state: s, ..x }
}

pub open spec fn strictly_increasing(s: Seq<usize>) -> bool {
    forall|a: int, b: int| 0 <= a < b < s.len() ==> s[a] < s[b]
}

/// Each task before the root belongs to a package whose preparation is
/// itself a task before the root.
pub proof fn lemma_prep_of(g: TasksGraph, i: int)
    requires
        g.wf(),
        0 <= i < g.root(),
    ensures
        g@[i].prep < g.root(),
        g@[g@[i].prep as int].kind == TaskKind::Prepare,
        g@[i].kind == TaskKind::Prepare <==> g@[i].prep == i,
{
    reveal(nodes_ok);
    assert(node_ok(g@, i));
}

/// In a well-formed graph each task's state stands to its preparation's as
/// `child_ok` says: it waits while the preparation is ready or running, has
/// left waiting once it is done, and is skipped once it failed.
pub proof fn lemma_child_state(g: TasksGraph, c: int)
    requires
        g.wf(),
        0 <= c < g.root(),
        g@[c].kind != TaskKind::Prepare,
    ensures
        child_ok(g@[g@[c].prep as int].state, g@[c].state),
{
    reveal(nodes_ok);
    assert(node_ok(g@, c));
}

/// A task whose package failed to prepare has ended as `PrepareFailed`, is
/// not in the ready queue, and so is never handed to a worker.
pub proof fn lemma_failed_package_never_runs(g: TasksGraph, c: int)
    requires
        g.wf(),
        0 <= c < g.root(),
        g@[c].kind != TaskKind::Prepare,
        g@[g@[c].prep as int].state is Failed,
    ensures
        g@[c].state == TaskState::Failed(TestResult::PrepareFailed),
        !g.ready_queue().contains(c as usize),
{
    lemma_child_state(g, c);
    reveal(queue_ok);
    assert((c as usize) as int == c);
}

/// A task that has ended stays as it ended: each task ends at most once.
pub proof fn lemma_terminal_stable(a: TaskState, b: TaskState)
    requires
        valid_step(a, b),
        a.terminal(),
    ensures
        b == a,
{
}

/// Number of ended tasks among the first `m`.
pub open spec fn count_terminal(s: Seq<Task>, m: int) -> nat
    decreases m,
{
    if m <= 0 {
        0
    } else {
        count_terminal(s, m - 1) + if s[m - 1].state.terminal() { 1nat } else { 0nat }
    }
}

proof fn lemma_count_all(s: Seq<Task>, m: int)
    requires
        0 <= m <= s.len(),
        forall|i: int| 0 <= i < m ==> (#[trigger] s[i]).state.terminal(),
    ensures
        count_terminal(s, m) == m,
    decreases m,
{
    if m > 0 {
        lemma_count_all(s, m - 1);
    }
}

/// A graph of `k` packages and `t` toolchains has drained once its `k * t + k`
/// tasks before the root have each ended, and since a task ends at most once,
/// that is `k * t + k` terminal transitions, the root's aside.
pub proof fn lemma_drain_count(g: TasksGraph, k: nat, t: nat)
    requires
        g.wf(),
        g@.len() == k * (t + 1) + 1,
        g.drained(),
    ensures
        count_terminal(g@, g.root()) == k * t + k,
{
    lemma_count_all(g@, g.root());
    assert(k * (t + 1) == k * t + k) by (nonlinear_arith);
}

/// A graph without packages has nothing to run: it is drained and its ready
/// queue is empty, so its first decision is `Finished`.
pub proof fn lemma_empty_graph_finished(g: TasksGraph)
    requires
        g.wf(),
        g@.len() == 1,
    ensures
        g.drained(),
        g.ready_queue().len() == 0,
{
    reveal(queue_ok);
    if g.ready@.len() > 0 {
        assert(g.ready@[0] < 0);
    }
}

/// Index of entry `j` of the block of package `k`, with blocks of `b` tasks.
pub open spec fn slot(k: int, b: int, j: int) -> int {
    k * b + j
}

pub open spec fn exec_kind(mode: Mode) -> TaskKind {
    match mode {
        Mode::BuildAndTest => TaskKind::BuildAndTest,
        Mode::BuildOnly => TaskKind::BuildOnly,
        Mode::Clippy => TaskKind::Lint,
    }
}

pub open spec fn prepare_task(krate: u64, at: int) -> Task {
    Task { kind: TaskKind::Prepare, krate, toolchain: 0, prep: at as usize, state: TaskState::Ready }
}

pub open spec fn exec_task(mode: Mode, krate: u64, toolchain: u64, prep: int) -> Task {
    Task { kind: exec_kind(mode), krate, toolchain, prep: prep as usize, state: TaskState::Waiting }
}

pub open spec fn root_task() -> Task {
    Task { kind: TaskKind::Root, krate: 0, toolchain: 0, prep: 0, state: TaskState::Waiting }
}

/// The first `k` packages' blocks as built: each package's preparation,
/// ready and queued in package order, then one waiting task per toolchain.
pub open spec fn laid_out(
    t: Seq<Task>,
    q: Seq<usize>,
    crates: Seq<u64>,
    tcs: Seq<u64>,
    mode: Mode,
    k: int,
) -> bool {
    let b: int = tcs.len() as int + 1;
    &&& forall|k1: int| 0 <= k1 < k ==> slot(k1, b, 0) < t.len() && #[trigger] t[slot(k1, b, 0)] == prepare_task(
        crates[k1],
        slot(k1, b, 0),
    ) && q[k1] == slot(k1, b, 0)
    &&& forall|k1: int, j1: int|
        0 <= k1 < k && 0 <= j1 < tcs.len() ==> slot(k1, b, 1 + j1) < t.len() && #[trigger] t[slot(k1, b, 1 + j1)]
            == exec_task(mode, crates[k1], tcs[j1], slot(k1, b, 0))
}

proof fn lemma_laid_out_push(
    t: Seq<Task>,
    q: Seq<usize>,
    x: Task,
    q1: Seq<usize>,
    crates: Seq<u64>,
    tcs: Seq<u64>,
    mode: Mode,
    k: int,
)
    requires
        laid_out(t, q, crates, tcs, mode, k),
        k <= q.len() <= q1.len(),
        forall|i: int| 0 <= i < q.len() ==> #[trigger] q1[i] == q[i],
    ensures
        laid_out(t.push(x), q1, crates, tcs, mode, k),
{
    let b: int = tcs.len() as int + 1;
    let t1 = t.push(x);
    assert forall|k1: int| 0 <= k1 < k implies slot(k1, b, 0) < t1.len() && #[trigger] t1[slot(k1, b, 0)]
        == prepare_task(crates[k1], slot(k1, b, 0)) && q1[k1] == slot(k1, b, 0) by {
        assert(t[slot(k1, b, 0)] == prepare_task(crates[k1], slot(k1, b, 0)));
        assert(q1[k1] == q[k1]);
    }
    assert forall|k1: int, j1: int| 0 <= k1 < k && 0 <= j1 < tcs.len() implies slot(k1, b, 1 + j1) < t1.len()
        && #[trigger] t1[slot(k1, b, 1 + j1)] == exec_task(mode, crates[k1], tcs[j1], slot(k1, b, 0)) by {
        assert(t[slot(k1, b, 1 + j1)] == exec_task(mode, crates[k1], tcs[j1], slot(k1, b, 0)));
    }
}

/// What holds of node `i` of a graph under construction.
pub open spec fn built_node(t: Seq<Task>, i: int) -> bool {
    let x = t[i];
    &&& x.kind != TaskKind::Root
    &&& x.prep < t.len()
    &&& t[x.prep as int].kind == TaskKind::Prepare
    &&& (x.kind == TaskKind::Prepare) == (x.prep == i)
    &&& x.kind == TaskKind::Prepare ==> x.state == TaskState::Ready
    &&& x.kind != TaskKind::Prepare ==> x.state == TaskState::Waiting && t[x.prep as int].state
        == TaskState::Ready
}

/// What holds of a graph under construction before its root is added.
#[verifier::opaque]
pub open spec fn build_ok(t: Seq<Task>, q: Seq<usize>) -> bool {
    &&& forall|i: int| 0 <= i < t.len() ==> #[trigger] built_node(t, i)
    &&& q.no_duplicates()
    &&& forall|k: int| 0 <= k < q.len() ==> #[trigger] q[k] < t.len()
    &&& forall|i: int| 0 <= i < t.len() ==> (#[trigger] t[i].state is Ready <==> q.contains(i as usize))
}

proof fn lemma_push_prepare(t: Seq<Task>, q: Seq<usize>, x: Task)
    requires
        build_ok(t, q),
        t.len() < usize::MAX,
        x.kind == TaskKind::Prepare,
        x.prep == t.len(),
        x.state == TaskState::Ready,
    ensures
        build_ok(t.push(x), q.push(t.len() as usize)),
{
    reveal(build_ok);
    let t1 = t.push(x);
    let q1 = q.push(t.len() as usize);
    assert forall|i: int| 0 <= i < t1.len() implies #[trigger] built_node(t1, i) by {
        if i < t.len() {
            assert(built_node(t, i));
            assert(t1[i] == t[i]);
            assert(t1[t[i].prep as int] == t[t[i].prep as int]);
        }
    }
    assert forall|i: int| 0 <= i < t1.len() implies (#[trigger] t1[i].state is Ready <==> q1.contains(i as usize)) by {
        let iu = i as usize;
        assert(iu as int == i);
        if i < t.len() {
            if q1.contains(iu) {
                let k = choose|k: int| 0 <= k < q1.len() && q1[k] == iu;
                if k < q.len() {
                    assert(q[k] == iu);
                }
            }
            if q.contains(iu) {
                let k = choose|k: int| 0 <= k < q.len() && q[k] == iu;
                assert(q1[k] == iu);
            }
        } else {
            assert(q1[q.len() as int] == iu);
        }
    }
    assert forall|a: int, b: int| 0 <= a < q1.len() && 0 <= b < q1.len() && a != b implies q1[a] != q1[b] by {
        if a < q.len() && b < q.len() {
        } else if a < q.len() {
            assert(q[a] < t.len());
        } else if b < q.len() {
            assert(q[b] < t.len());
        }
    }
}

proof fn lemma_push_exec(t: Seq<Task>, q: Seq<usize>, x: Task)
    requires
        build_ok(t, q),
        t.len() < usize::MAX,
        x.kind != TaskKind::Prepare && x.kind != TaskKind::Root,
        x.prep < t.len(),
        t[x.prep as int].kind == TaskKind::Prepare,
        t[x.prep as int].state == TaskState::Ready,
        x.state == TaskState::Waiting,
    ensures
        build_ok(t.push(x), q),
{
    reveal(build_ok);
    let t1 = t.push(x);
    assert forall|i: int| 0 <= i < t1.len() implies #[trigger] built_node(t1, i) by {
        if i < t.len() {
            assert(built_node(t, i));
            assert(t1[i] == t[i]);
            assert(t1[t[i].prep as int] == t[t[i].prep as int]);
        }
    }
    assert forall|i: int| 0 <= i < t1.len() implies (#[trigger] t1[i].state is Ready <==> q.contains(i as usize)) by {
        if i == t.len() && q.contains(i as usize) {
            let k = choose|k: int| 0 <= k < q.len() && q[k] == i as usize;
        }
    }
}

proof fn lemma_push_root(t: Seq<Task>, q: Seq<usize>)
    requires
        build_ok(t, q),
        t.len() < usize::MAX,
    ensures
        nodes_ok(t.push(root_task())),
        queue_ok(t.push(root_task()), q),
{
    reveal(build_ok);
    reveal(nodes_ok);
    reveal(queue_ok);
    let t1 = t.push(root_task());
    assert forall|i: int| 0 <= i < t1.len() - 1 implies #[trigger] node_ok(t1, i) by {
        assert(built_node(t, i));
        assert(t1[i] == t[i]);
        assert(t1[t[i].prep as int] == t[t[i].prep as int]);
    }
    assert forall|i: int| 0 <= i < t1.len() - 1 implies (#[trigger] t1[i].state is Ready <==> q.contains(i as usize)) by {
        assert(t1[i] == t[i]);
    }
}

proof fn lemma_block_end(k: int, b: int, n: int)
    requires
        0 <= k < n,
        1 <= b,
        n * b + 1 <= usize::MAX,
    ensures
        slot(k, b, b) == slot(k + 1, b, 0),
        slot(k + 1, b, 0) <= n * b,
{
    assert(k * b + b == (k + 1) * b) by (nonlinear_arith);
    assert((k + 1) * b <= n * b) by (nonlinear_arith)
        requires
            k + 1 <= n,
            1 <= b,
    ;
}

proof fn lemma_complete_wf(g0: Seq<Task>, q0: Seq<usize>, g1: Seq<Task>, q1: Seq<usize>, t: int, outcome: Outcome)
    requires
        1 <= g0.len() <= usize::MAX,
        g0[g0.len() - 1].kind == TaskKind::Root,
        nodes_ok(g0),
        queue_ok(g0, q0),
        0 <= t < g0.len() - 1,
        g0[t].state is Running,
        g1.len() == g0.len(),
        forall|i: int| 0 <= i < g0.len() ==> #[trigger] g1[i] == with_state(g0[i], state_after(g0, t, outcome, i)),
        q1.len() >= q0.len(),
        q1.subrange(0, q0.len() as int) == q0,
        strictly_increasing(q1.subrange(q0.len() as int, q1.len() as int)),
        forall|k: int| q0.len() <= k < q1.len() ==> {
            let c = #[trigger] q1[k] as int;
            &&& 0 <= c < g0.len() - 1
            &&& c != t
            &&& g0[c].prep == t
            &&& g0[t].kind == TaskKind::Prepare
            &&& outcome is Done
        },
        forall|j: int| 0 <= j < g0.len() - 1 && j != t && g0[j].prep == t && g0[t].kind == TaskKind::Prepare
            && outcome is Done ==> #[trigger] q1.contains(j as usize),
    ensures
        nodes_ok(g1),
        queue_ok(g1, q1),
        forall|i: int| 0 <= i < g0.len() ==> valid_step(#[trigger] g0[i].state, g1[i].state),
{
    reveal(nodes_ok);
    reveal(queue_ok);
    let n = g0.len();
    assert(node_ok(g0, t));
    assert forall|i: int| 0 <= i < n - 1 implies #[trigger] node_ok(g1, i) by {
        assert(node_ok(g0, i));
        let p = g0[i].prep as int;
        assert(node_ok(g0, p));
    }
    assert forall|i: int| 0 <= i < n implies valid_step(#[trigger] g0[i].state, g1[i].state) by {
        if i < n - 1 {
            assert(node_ok(g0, i));
        }
    }
    assert forall|k: int| 0 <= k < q1.len() implies #[trigger] q1[k] < n - 1 by {
        if k < q0.len() {
            assert(q1[k] == q0[k]);
        }
    }
    assert forall|a: int, b: int| 0 <= a < q1.len() && 0 <= b < q1.len() && a != b implies q1[a] != q1[b] by {
        if a < q0.len() && b < q0.len() {
            assert(q1[a] == q0[a] && q1[b] == q0[b]);
        } else if a >= q0.len() && b >= q0.len() {
            let s = q1.subrange(q0.len() as int, q1.len() as int);
            if a < b {
                assert(s[a - q0.len()] < s[b - q0.len()]);
            } else {
                assert(s[b - q0.len()] < s[a - q0.len()]);
            }
        } else {
            let (o, m) = if a < q0.len() { (a, b) } else { (b, a) };
            let c = q1[m] as int;
            assert(q1[o] == q0[o]);
            assert(node_ok(g0, c));
            assert(!(g0[c].state is Ready));
            assert(q0.contains(q0[o]));
            if q0[o] as int == c {
                assert(g0[c].state is Ready);
            }
        }
    }
    assert forall|i: int| 0 <= i < n - 1 implies (#[trigger] g1[i].state is Ready <==> q1.contains(i as usize)) by {
        assert(node_ok(g0, i));
        let iu = i as usize;
        assert(iu as int == i);
        if q1.contains(iu) {
            let k = choose|k: int| 0 <= k < q1.len() && q1[k] == iu;
            if k < q0.len() {
                assert(q0[k] == iu);
                assert(q0.contains(iu));
            }
        }
        if q0.contains(iu) {
            let k = choose|k: int| 0 <= k < q0.len() && q0[k] == iu;
            assert(q1[k] == iu);
        }
    }
}

/// How an execution task's state stands to that of its package's preparation.
pub open spec fn child_ok(p: TaskState, c: TaskState) -> bool {
    &&& (p is Ready || p is Running) ==> c is Waiting
    &&& p is Done ==> !(c is Waiting)
    &&& p is Failed ==> c == TaskState::Failed(TestResult::PrepareFailed)
}

} // verus!
