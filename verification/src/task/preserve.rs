//! Every transition of the kernel state keeps the invariant.
use vstd::prelude::*;
use crate::config::{IDLE_PID, MAX_SYSCALL_NUM, MAX_TASKS};
use crate::mm::address_space::AddressSpace;
use crate::task::control_block::{TaskStatus, TaskView};
use crate::task::state::KernelView;

verus! {

/// Replacing a task by one with the same identifier, status, parent and
/// children keeps the invariant.
pub proof fn lemma_with_task_wf(s: KernelView, pid: usize, t: TaskView)
    requires
        s.wf(),
        s.has_task(pid),
        t.pid == s.tasks[pid].pid,
        t.status == s.tasks[pid].status,
        t.parent == s.tasks[pid].parent,
        t.children == s.tasks[pid].children,
        t.memory.wf(),
        t.syscall_times.len() == MAX_SYSCALL_NUM,
        t.start_time <= s.now_ms(),
    ensures
        s.with_task(pid, t).wf(),
{
    let n = s.with_task(pid, t);
    assert forall|p: usize| #[trigger] n.has_task(p) implies n.task_ok(p) by {
        assert(s.has_task(p));
    }
    assert forall|p: usize, k: int|
        n.has_task(p) && 0 <= k < n.tasks[p].children.len() implies n.has_task(
        #[trigger] n.tasks[p].children[k],
    ) && n.tasks[n.tasks[p].children[k]].parent == Some(p) by {
        assert(s.has_task(p));
        assert(s.has_task(s.tasks[p].children[k]));
    }
    assert forall|c: usize| #[trigger] n.has_task(c) && n.tasks[c].parent.is_some() implies n.has_task(
        n.tasks[c].parent.unwrap(),
    ) && n.tasks[n.tasks[c].parent.unwrap()].children.contains(c) by {
        assert(s.has_task(c));
    }
    assert forall|p: usize| #[trigger] n.has_task(p) implies (n.tasks[p].status
        == TaskStatus::Ready <==> n.ready.contains(p)) by {
        assert(s.has_task(p));
    }
    assert forall|p: usize| #[trigger] n.has_task(p) implies (n.tasks[p].status
        == TaskStatus::Running <==> n.current == Some(p)) by {
        assert(s.has_task(p));
    }
    assert forall|p: usize| #[trigger] n.has_task(p) implies n.has_task(IDLE_PID)
        && n.tasks[IDLE_PID].parent.is_none() && n.tasks[IDLE_PID].status
        != TaskStatus::Zombie by {
        assert(s.has_task(p));
    }
    assert forall|i: int| 0 <= i < n.ready.len() implies n.has_task(#[trigger] n.ready[i]) by {
        assert(s.has_task(s.ready[i]));
    }
}

/// A reading of the timer keeps the invariant.
pub proof fn lemma_at_time_wf(s: KernelView, now_us: usize)
    requires
        s.wf(),
    ensures
        s.at_time(now_us).wf(),
{
    let n = s.at_time(now_us);
    assert forall|p: usize| #[trigger] n.has_task(p) implies s.has_task(p) by {}
    assert forall|p: usize| #[trigger] n.has_task(p) implies n.task_ok(p) by {
        assert(s.task_ok(p));
    }
    assert forall|p: usize, k: int|
        n.has_task(p) && 0 <= k < n.tasks[p].children.len() implies n.has_task(
        #[trigger] n.tasks[p].children[k],
    ) && n.tasks[n.tasks[p].children[k]].parent == Some(p) by {
        assert(s.has_task(s.tasks[p].children[k]));
    }
    assert forall|i: int| 0 <= i < n.ready.len() implies n.has_task(#[trigger] n.ready[i]) by {
        assert(s.has_task(s.ready[i]));
    }
}

/// Replacing the running task's address space by a well-formed one keeps
/// the invariant.
pub proof fn lemma_with_memory_wf(s: KernelView, m: AddressSpace)
    requires
        s.wf(),
        s.has_current(),
        m.wf(),
    ensures
        s.with_current_memory(m).wf(),
{
    assert(s.has_task(s.current.unwrap()));
    assert(s.task_ok(s.current.unwrap()));
    lemma_with_task_wf(s, s.current.unwrap(), TaskView { memory: m, ..s.cur() });
}

/// One turn of the idle loop, taken while nobody runs, keeps the
/// invariant; if a task was ready, the head of the queue now runs.
pub proof fn lemma_dispatch_wf(s: KernelView)
    requires
        s.wf(),
        s.current.is_none(),
    ensures
        s.dispatch().wf(),
        s.ready.len() > 0 ==> s.dispatch().current == Some(s.ready[0]),
        s.ready.len() == 0 ==> s.dispatch() == s,
{
    if s.ready.len() > 0 {
        let n = s.dispatch();
        let h = s.ready[0];
        assert(s.has_task(h));
        assert(s.ready.contains(h));
        assert forall|p: usize| #[trigger] n.has_task(p) implies n.task_ok(p) by {
            assert(s.has_task(p));
        }
        assert(n.ready.no_duplicates());
        assert forall|i: int| 0 <= i < n.ready.len() implies n.has_task(#[trigger] n.ready[i]) by {
            assert(n.ready[i] == s.ready[i + 1]);
            assert(s.has_task(s.ready[i + 1]));
        }
        assert forall|p: usize| #[trigger] n.has_task(p) implies (n.tasks[p].status
            == TaskStatus::Ready <==> n.ready.contains(p)) by {
            assert(s.has_task(p));
            if p == h {
                if n.ready.contains(p) {
                    let i = choose|i: int| 0 <= i < n.ready.len() && n.ready[i] == p;
                    assert(s.ready[i + 1] == p);
                }
            } else {
                if s.ready.contains(p) {
                    let i = choose|i: int| 0 <= i < s.ready.len() && s.ready[i] == p;
                    assert(n.ready[i - 1] == p);
                }
                if n.ready.contains(p) {
                    let i = choose|i: int| 0 <= i < n.ready.len() && n.ready[i] == p;
                    assert(s.ready[i + 1] == p);
                }
            }
        }
        assert forall|p: usize| #[trigger] n.has_task(p) implies (n.tasks[p].status
            == TaskStatus::Running <==> n.current == Some(p)) by {
            assert(s.has_task(p));
        }
        assert forall|p: usize, k: int|
            n.has_task(p) && 0 <= k < n.tasks[p].children.len() implies n.has_task(
            #[trigger] n.tasks[p].children[k],
        ) && n.tasks[n.tasks[p].children[k]].parent == Some(p) by {
            assert(s.has_task(p));
            assert(s.has_task(s.tasks[p].children[k]));
        }
        assert forall|c: usize| #[trigger]
            n.has_task(c) && n.tasks[c].parent.is_some() implies n.has_task(
            n.tasks[c].parent.unwrap(),
        ) && n.tasks[n.tasks[c].parent.unwrap()].children.contains(c) by {
            assert(s.has_task(c));
        }
        assert forall|p: usize| #[trigger] n.has_task(p) implies n.has_task(IDLE_PID)
            && n.tasks[IDLE_PID].parent.is_none() && n.tasks[IDLE_PID].status
            != TaskStatus::Zombie by {
            assert(s.has_task(p));
        }
    }
}

/// Sending the running task to the tail of the ready queue keeps the
/// invariant and leaves the processor empty and the queue not empty.
pub proof fn lemma_requeue_wf(s: KernelView)
    requires
        s.wf(),
        s.has_current(),
    ensures
        s.requeue_current().wf(),
        s.requeue_current().current.is_none(),
        s.requeue_current().ready.len() > 0,
{
    let n = s.requeue_current();
    let p = s.current.unwrap();
    assert(s.has_task(p));
    assert(!s.ready.contains(p));
    assert forall|q: usize| #[trigger] n.has_task(q) implies n.task_ok(q) by {
        assert(s.has_task(q));
    }
    assert(n.ready.no_duplicates()) by {
        assert forall|i: int, j: int|
            0 <= i < n.ready.len() && 0 <= j < n.ready.len() && i != j implies n.ready[i]
            != n.ready[j] by {
            if i < s.ready.len() {
                assert(s.ready.contains(s.ready[i]));
            }
            if j < s.ready.len() {
                assert(s.ready.contains(s.ready[j]));
            }
        }
    }
    assert forall|i: int| 0 <= i < n.ready.len() implies n.has_task(#[trigger] n.ready[i]) by {
        if i < s.ready.len() {
            assert(s.has_task(s.ready[i]));
        }
    }
    assert forall|q: usize| #[trigger] n.has_task(q) implies (n.tasks[q].status
        == TaskStatus::Ready <==> n.ready.contains(q)) by {
        assert(s.has_task(q));
        if q == p {
            assert(n.ready[s.ready.len() as int] == p);
        } else {
            if s.ready.contains(q) {
                let i = choose|i: int| 0 <= i < s.ready.len() && s.ready[i] == q;
                assert(n.ready[i] == q);
            }
            if n.ready.contains(q) {
                let i = choose|i: int| 0 <= i < n.ready.len() && n.ready[i] == q;
                assert(s.ready[i] == q);
            }
        }
    }
    assert forall|q: usize| #[trigger] n.has_task(q) implies (n.tasks[q].status
        == TaskStatus::Running <==> n.current == Some(q)) by {
        assert(s.has_task(q));
    }
    assert forall|q: usize, k: int|
        n.has_task(q) && 0 <= k < n.tasks[q].children.len() implies n.has_task(
        #[trigger] n.tasks[q].children[k],
    ) && n.tasks[n.tasks[q].children[k]].parent == Some(q) by {
        assert(s.has_task(q));
        assert(s.has_task(s.tasks[q].children[k]));
    }
    assert forall|c: usize| #[trigger] n.has_task(c) && n.tasks[c].parent.is_some() implies n.has_task(
        n.tasks[c].parent.unwrap(),
    ) && n.tasks[n.tasks[c].parent.unwrap()].children.contains(c) by {
        assert(s.has_task(c));
    }
    assert forall|q: usize| #[trigger] n.has_task(q) implies n.has_task(IDLE_PID)
        && n.tasks[IDLE_PID].parent.is_none() && n.tasks[IDLE_PID].status
        != TaskStatus::Zombie by {
        assert(s.has_task(q));
    }
}

/// A yield keeps the invariant, and afterwards a task runs.
pub proof fn lemma_suspend_wf(s: KernelView)
    requires
        s.wf(),
        s.has_current(),
    ensures
        s.suspend().wf(),
        s.suspend().has_current(),
{
    lemma_requeue_wf(s);
    lemma_dispatch_wf(s.requeue_current());
}

/// An address space with everything unmapped is well-formed.
pub proof fn lemma_recycle_wf(m: AddressSpace)
    requires
        m.wf(),
    ensures
        m.recycle().wf(),
{
    let r = m.recycle();
    assert forall|vpn: int| #[trigger] r.mapped(vpn) <==> r.covered(vpn) by {}
}

/// The end of a running task other than the idle process keeps the
/// invariant, leaves the processor empty, and leaves a task ready.
pub proof fn lemma_retire_wf(s: KernelView, exit_code: i32)
    requires
        s.wf(),
        s.has_current(),
        s.current != Some(IDLE_PID),
    ensures
        s.retire_current(exit_code).wf(),
        s.retire_current(exit_code).current.is_none(),
        s.retire_current(exit_code).ready == s.ready,
        s.ready.len() > 0,
{
    let n = s.retire_current(exit_code);
    let p = s.current.unwrap();
    let kids = s.cur().children;
    let idle = s.tasks[IDLE_PID];
    assert(s.has_task(p));
    assert(s.has_task(IDLE_PID));
    assert(s.task_ok(p));
    assert(s.task_ok(IDLE_PID));
    assert(s.ready.contains(IDLE_PID));
    lemma_recycle_wf(s.cur().memory);
    // The children of the ending task are not yet children of the idle process.
    assert forall|i: int, j: int| 0 <= i < idle.children.len() && 0 <= j < kids.len() implies idle.children[i]
        != kids[j] by {
        assert(s.has_task(s.tasks[IDLE_PID].children[i]));
        assert(s.has_task(s.tasks[p].children[j]));
    }
    assert forall|j: int| 0 <= j < kids.len() implies kids[j] != p && kids[j] != IDLE_PID by {
        assert(s.has_task(s.tasks[p].children[j]));
        assert(s.task_ok(kids[j]));
    }
    assert forall|q: usize| #[trigger] n.has_task(q) implies n.task_ok(q) by {
        assert(s.has_task(q));
        assert(s.task_ok(q));
        if q != p && q == IDLE_PID {
            let all = idle.children + kids;
            assert forall|i: int, j: int| 0 <= i < all.len() && 0 <= j < all.len() && i != j implies all[i]
                != all[j] by {}
        }
    }
    assert forall|i: int| 0 <= i < n.ready.len() implies n.has_task(#[trigger] n.ready[i]) by {
        assert(s.has_task(s.ready[i]));
    }
    assert forall|q: usize| #[trigger] n.has_task(q) implies (n.tasks[q].status
        == TaskStatus::Ready <==> n.ready.contains(q)) by {
        assert(s.has_task(q));
    }
    assert forall|q: usize| #[trigger] n.has_task(q) implies (n.tasks[q].status
        == TaskStatus::Running <==> n.current == Some(q)) by {
        assert(s.has_task(q));
    }
    assert forall|q: usize, k: int|
        n.has_task(q) && 0 <= k < n.tasks[q].children.len() implies n.has_task(
        #[trigger] n.tasks[q].children[k],
    ) && n.tasks[n.tasks[q].children[k]].parent == Some(q) by {
        assert(s.has_task(q));
        let c = n.tasks[q].children[k];
        if q == IDLE_PID {
            if k < idle.children.len() {
                assert(c == s.tasks[IDLE_PID].children[k]);
                assert(s.has_task(c));
                assert(s.task_ok(c));
                if kids.contains(c) {
                    let j = choose|j: int| 0 <= j < kids.len() && kids[j] == c;
                    assert(false);
                }
            } else {
                let j = k - idle.children.len();
                assert(c == kids[j]);
                assert(s.has_task(s.tasks[p].children[j]));
                assert(kids.contains(c));
            }
        } else {
            assert(c == s.tasks[q].children[k]);
            assert(s.has_task(c));
            assert(s.task_ok(c));
            if kids.contains(c) {
                let j = choose|j: int| 0 <= j < kids.len() && kids[j] == c;
                assert(s.has_task(s.tasks[p].children[j]));
                assert(false);
            }
        }
    }
    assert forall|c: usize| #[trigger] n.has_task(c) && n.tasks[c].parent.is_some() implies n.has_task(
        n.tasks[c].parent.unwrap(),
    ) && n.tasks[n.tasks[c].parent.unwrap()].children.contains(c) by {
        assert(s.has_task(c));
        assert(s.task_ok(c));
        if c != p && c != IDLE_PID && kids.contains(c) {
            let j = choose|j: int| 0 <= j < kids.len() && kids[j] == c;
            assert((idle.children + kids)[idle.children.len() + j] == c);
        } else {
            let x = s.tasks[c].parent.unwrap();
            assert(s.has_task(x));
            let i = choose|i: int| 0 <= i < s.tasks[x].children.len() && s.tasks[x].children[i] == c;
            if x == p {
                assert(kids.contains(c));
            } else if x == IDLE_PID {
                assert((idle.children + kids)[i] == c);
            }
        }
    }
    assert forall|q: usize| #[trigger] n.has_task(q) implies n.has_task(IDLE_PID)
        && n.tasks[IDLE_PID].parent.is_none() && n.tasks[IDLE_PID].status
        != TaskStatus::Zombie by {
        assert(s.has_task(q));
    }
}

/// An exit of a running task other than the idle process keeps the
/// invariant, and afterwards the task that headed the ready queue runs.
pub proof fn lemma_exit_wf(s: KernelView, exit_code: i32)
    requires
        s.wf(),
        s.has_current(),
        s.current != Some(IDLE_PID),
    ensures
        s.exit(exit_code).wf(),
        s.ready.len() > 0,
        s.exit(exit_code).current == Some(s.ready[0]),
{
    lemma_retire_wf(s, exit_code);
    lemma_dispatch_wf(s.retire_current(exit_code));
}

/// At most one identifier is the smallest free one.
pub proof fn lemma_lowest_free_unique(s: KernelView, a: usize, b: usize)
    requires
        s.is_lowest_free(a),
        s.is_lowest_free(b),
    ensures
        a == b,
{
    if a < b {
        assert(s.has_task(a));
    }
    if b < a {
        assert(s.has_task(b));
    }
}

/// A fork keeps the invariant.
pub proof fn lemma_fork_wf(s: KernelView)
    requires
        s.wf(),
        s.has_current(),
        s.can_fork(),
    ensures
        s.fork().wf(),
        s.is_lowest_free(s.lowest_free()),
        s.lowest_free() < MAX_TASKS,
        s.fork().current == s.current,
{
    let w = choose|pid: usize| pid < MAX_TASKS && #[trigger] s.is_lowest_free(pid);
    let c = s.lowest_free();
    lemma_lowest_free_unique(s, w, c);
    let n = s.fork();
    let p = s.current.unwrap();
    assert(s.has_task(p));
    assert(s.task_ok(p));
    assert forall|k: int| 0 <= k < s.cur().children.len() implies s.cur().children[k] != c by {
        assert(s.has_task(s.tasks[p].children[k]));
    }
    assert forall|i: int| 0 <= i < s.ready.len() implies s.ready[i] != c by {
        assert(s.has_task(s.ready[i]));
    }
    assert forall|q: usize| #[trigger] n.has_task(q) implies n.task_ok(q) by {
        if q != c {
            assert(s.has_task(q));
            assert(s.task_ok(q));
        }
    }
    assert(n.ready.no_duplicates());
    assert forall|i: int| 0 <= i < n.ready.len() implies n.has_task(#[trigger] n.ready[i]) by {
        if i < s.ready.len() {
            assert(s.has_task(s.ready[i]));
        }
    }
    assert forall|q: usize| #[trigger] n.has_task(q) implies (n.tasks[q].status
        == TaskStatus::Ready <==> n.ready.contains(q)) by {
        if q == c {
            assert(n.ready[s.ready.len() as int] == c);
        } else {
            assert(s.has_task(q));
            if s.ready.contains(q) {
                let i = choose|i: int| 0 <= i < s.ready.len() && s.ready[i] == q;
                assert(n.ready[i] == q);
            }
            if n.ready.contains(q) {
                let i = choose|i: int| 0 <= i < n.ready.len() && n.ready[i] == q;
                assert(s.ready[i] == q);
            }
        }
    }
    assert forall|q: usize| #[trigger] n.has_task(q) implies (n.tasks[q].status
        == TaskStatus::Running <==> n.current == Some(q)) by {
        if q != c {
            assert(s.has_task(q));
        }
    }
    assert forall|q: usize, k: int|
        n.has_task(q) && 0 <= k < n.tasks[q].children.len() implies n.has_task(
        #[trigger] n.tasks[q].children[k],
    ) && n.tasks[n.tasks[q].children[k]].parent == Some(q) by {
        if q != c {
            assert(s.has_task(q));
            if q == p && k == s.cur().children.len() {
            } else {
                assert(n.tasks[q].children[k] == s.tasks[q].children[k]);
                assert(s.has_task(s.tasks[q].children[k]));
            }
        }
    }
    assert forall|x: usize| #[trigger] n.has_task(x) && n.tasks[x].parent.is_some() implies n.has_task(
        n.tasks[x].parent.unwrap(),
    ) && n.tasks[n.tasks[x].parent.unwrap()].children.contains(x) by {
        if x == c {
            assert(n.tasks[p].children[s.cur().children.len() as int] == c);
        } else {
            assert(s.has_task(x));
            let y = s.tasks[x].parent.unwrap();
            let i = choose|i: int| 0 <= i < s.tasks[y].children.len() && s.tasks[y].children[i] == x;
            assert(n.tasks[y].children[i] == x);
        }
    }
    assert forall|q: usize| #[trigger] n.has_task(q) implies n.has_task(IDLE_PID)
        && n.tasks[IDLE_PID].parent.is_none() && n.tasks[IDLE_PID].status
        != TaskStatus::Zombie by {
        assert(s.has_task(p));
    }
}

/// Collecting a zombie child of the running task keeps the invariant.
pub proof fn lemma_reap_wf(s: KernelView, pid: int, k: int)
    requires
        s.wf(),
        s.has_current(),
        s.reapable(pid, k),
    ensures
        s.reap(k).wf(),
        s.reap(k).current == s.current,
        s.has_task(s.cur().children[k]),
        s.cur().children[k] != s.current.unwrap(),
{
    let n = s.reap(k);
    let p = s.current.unwrap();
    let kids = s.cur().children;
    let c = kids[k];
    assert(s.has_task(p));
    assert(s.task_ok(p));
    assert(s.has_task(s.tasks[p].children[k]));
    assert(s.task_ok(c));
    assert(s.has_task(IDLE_PID));
    assert(!s.ready.contains(c));
    assert forall|j: int| 0 <= j < kids.remove(k).len() implies kids.remove(k)[j] != c by {
        if j < k {
            assert(kids.remove(k)[j] == kids[j]);
        } else {
            assert(kids.remove(k)[j] == kids[j + 1]);
        }
    }
    assert forall|q: usize| #[trigger] n.has_task(q) implies n.task_ok(q) by {
        assert(s.has_task(q));
        assert(s.task_ok(q));
        if q == p {
            let r = kids.remove(k);
            assert forall|i: int, j: int| 0 <= i < r.len() && 0 <= j < r.len() && i != j implies r[i]
                != r[j] by {
                let io = if i < k { i } else { i + 1 };
                let jo = if j < k { j } else { j + 1 };
                assert(r[i] == kids[io]);
                assert(r[j] == kids[jo]);
            }
        }
    }
    assert forall|i: int| 0 <= i < n.ready.len() implies n.has_task(#[trigger] n.ready[i]) by {
        assert(s.has_task(s.ready[i]));
        assert(s.ready.contains(s.ready[i]));
    }
    assert forall|q: usize| #[trigger] n.has_task(q) implies (n.tasks[q].status
        == TaskStatus::Ready <==> n.ready.contains(q)) by {
        assert(s.has_task(q));
    }
    assert forall|q: usize| #[trigger] n.has_task(q) implies (n.tasks[q].status
        == TaskStatus::Running <==> n.current == Some(q)) by {
        assert(s.has_task(q));
    }
    assert forall|q: usize, j: int|
        n.has_task(q) && 0 <= j < n.tasks[q].children.len() implies n.has_task(
        #[trigger] n.tasks[q].children[j],
    ) && n.tasks[n.tasks[q].children[j]].parent == Some(q) by {
        assert(s.has_task(q));
        if q == p {
            let jo = if j < k { j } else { j + 1 };
            assert(n.tasks[q].children[j] == kids[jo]);
            assert(s.has_task(s.tasks[p].children[jo]));
        } else {
            assert(s.has_task(s.tasks[q].children[j]));
        }
    }
    assert forall|x: usize| #[trigger] n.has_task(x) && n.tasks[x].parent.is_some() implies n.has_task(
        n.tasks[x].parent.unwrap(),
    ) && n.tasks[n.tasks[x].parent.unwrap()].children.contains(x) by {
        assert(s.has_task(x));
        let y = s.tasks[x].parent.unwrap();
        assert(s.has_task(y));
        assert(s.task_ok(y));
        let i = choose|i: int| 0 <= i < s.tasks[y].children.len() && s.tasks[y].children[i] == x;
        if y == p {
            let io = if i < k { i } else { i - 1 };
            assert(kids.remove(k)[io] == x);
        }
    }
    assert forall|q: usize| #[trigger] n.has_task(q) implies n.has_task(IDLE_PID)
        && n.tasks[IDLE_PID].parent.is_none() && n.tasks[IDLE_PID].status
        != TaskStatus::Zombie by {
        assert(s.has_task(q));
    }
}

/// Creating the idle process in a kernel without tasks establishes the
/// invariant.
pub proof fn lemma_add_initproc_wf(s: KernelView, t: TaskView)
    requires
        s.wf(),
        !s.has_task(IDLE_PID),
        t.pid == IDLE_PID,
        t.status == TaskStatus::Ready,
        t.parent.is_none(),
        t.children.len() == 0,
        t.memory.wf(),
        t.syscall_times.len() == MAX_SYSCALL_NUM,
        t.start_time == 0,
    ensures
        s.ready.len() == 0,
        s.current.is_none(),
        forall|p: usize| !s.has_task(p),
        (KernelView { tasks: s.tasks.insert(IDLE_PID, t), ready: s.ready.push(IDLE_PID), ..s }).wf(),
{
    assert forall|p: usize| !s.has_task(p) by {
        if s.has_task(p) {
            assert(s.has_task(IDLE_PID));
        }
    }
    if s.ready.len() > 0 {
        assert(s.has_task(s.ready[0]));
    }
    let n = KernelView { tasks: s.tasks.insert(IDLE_PID, t), ready: s.ready.push(IDLE_PID), ..s };
    assert(n.ready =~= seq![IDLE_PID]);
    assert forall|p: usize| #[trigger] n.has_task(p) implies p == IDLE_PID by {
        if p != IDLE_PID {
            assert(s.has_task(p));
        }
    }
    assert(n.ready[0] == IDLE_PID);
}

} // verus!
