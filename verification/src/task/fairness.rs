//! The ready queue is first in, first out: tasks that only yield take
//! turns in a fixed order.
use vstd::prelude::*;
use crate::task::state::KernelView;

verus! {

/// The state after the running task, and then each task that follows it
/// onto the processor, has yielded once, `k` yields in all.
pub open spec fn after_yields(s: KernelView, k: nat) -> KernelView
    decreases k,
{
    if k == 0 {
        s
    } else {
        after_yields(s, (k - 1) as nat).suspend()
    }
}

/// The running task followed by the ready queue, head first.
pub open spec fn run_order(s: KernelView) -> Seq<usize> {
    seq![s.current.unwrap()] + s.ready
}

/// After `k` yields, with `k` at most the length of the ready queue, the
/// task at place `k` of the run order runs, and the queue holds the tasks
/// behind it followed by those before it.
pub proof fn lemma_turns(s: KernelView, k: nat)
    requires
        s.has_current(),
        k <= s.ready.len(),
    ensures
        after_yields(s, k).current == Some(run_order(s)[k as int]),
        after_yields(s, k).ready == run_order(s).subrange(k as int + 1, run_order(s).len() as int)
            + run_order(s).subrange(0, k as int),
    decreases k,
{
    let all = run_order(s);
    let n = all.len() as int;
    if k == 0 {
        assert(s.ready =~= all.subrange(1, n) + all.subrange(0, 0));
    } else {
        lemma_turns(s, (k - 1) as nat);
        let before = after_yields(s, (k - 1) as nat);
        let queued = before.requeue_current();
        assert(queued.ready =~= all.subrange(k as int, n) + all.subrange(0, k as int));
        assert(queued.ready.len() > 0);
        assert(queued.ready[0] == all[k as int]);
        assert(queued.ready.drop_first() =~= all.subrange(k as int + 1, n) + all.subrange(0, k as int));
    }
}

/// With `n` tasks that only yield (the running one and those in the ready
/// queue), the first `n` turns go to `n` different tasks, in the order in
/// which they stood, and then the round starts again with the same task
/// and the same queue: each task runs once before any runs twice.
pub proof fn lemma_fair_round(s: KernelView)
    requires
        s.wf(),
        s.has_current(),
    ensures
        run_order(s).no_duplicates(),
        forall|k: nat|
            k <= s.ready.len() ==> (#[trigger] after_yields(s, k)).current == Some(
                run_order(s)[k as int],
            ),
        after_yields(s, run_order(s).len()).current == s.current,
        after_yields(s, run_order(s).len()).ready == s.ready,
{
    let all = run_order(s);
    let n = all.len();
    let p = s.current.unwrap();
    assert(s.has_task(p));
    assert(!s.ready.contains(p));
    assert forall|i: int, j: int| 0 <= i < all.len() && 0 <= j < all.len() && i != j implies all[i]
        != all[j] by {
        if i > 0 {
            assert(s.ready.contains(s.ready[i - 1]));
        }
        if j > 0 {
            assert(s.ready.contains(s.ready[j - 1]));
        }
    }
    assert forall|k: nat| k <= s.ready.len() implies (#[trigger] after_yields(s, k)).current
        == Some(run_order(s)[k as int]) by {
        lemma_turns(s, k);
    }
    lemma_turns(s, (n - 1) as nat);
    let last = after_yields(s, (n - 1) as nat);
    let queued = last.requeue_current();
    assert(queued.ready =~= all);
    assert(queued.ready.drop_first() =~= s.ready);
}

} // verus!
