//! The laws of the tape, proved once for every [`LexBuf`].
//!
//! Each primitive mutation is captured as a transition predicate over the
//! abstract tape state — exactly what the corresponding operation's
//! contract ensures — and the laws quantify over single transitions or
//! over runs: sequences of states linked by such transitions.

use crate::tape::highlight_of;
use crate::tape::serves;
use crate::tape::tape_unchanged;
use crate::tape::tape_wf;
use crate::tape::LexBuf;
use vstd::prelude::*;

verus! {

/// One `get`: the head advances by one over the tape.
pub open spec fn get_step<T: LexBuf>(pre: T, post: T) -> bool {
    &&& tape_wf(pre)
    &&& tape_wf(post)
    &&& post.tail() == pre.tail()
    &&& post.head() == pre.head() + 1
    &&& tape_unchanged(pre, post)
}

/// One `unget`: the head retreats by one inside a non-empty highlight.
pub open spec fn unget_step<T: LexBuf>(pre: T, post: T) -> bool {
    &&& tape_wf(pre)
    &&& pre.tail() < pre.head()
    &&& tape_wf(post)
    &&& post.tail() == pre.tail()
    &&& post.head() + 1 == pre.head()
    &&& tape_unchanged(pre, post)
}

/// One `move_on`: the tail is committed up to the head.
pub open spec fn move_on_step<T: LexBuf>(pre: T, post: T) -> bool {
    &&& tape_wf(pre)
    &&& tape_wf(post)
    &&& post.tail() == pre.head()
    &&& post.head() == pre.head()
    &&& tape_unchanged(pre, post)
}

/// One `give_up`: the head is discarded back to the tail.
pub open spec fn give_up_step<T: LexBuf>(pre: T, post: T) -> bool {
    &&& tape_wf(pre)
    &&& tape_wf(post)
    &&& post.tail() == pre.tail()
    &&& post.head() == pre.tail()
    &&& tape_unchanged(pre, post)
}

/// One `shrink`: the tail advances by one inside a non-empty highlight.
pub open spec fn shrink_step<T: LexBuf>(pre: T, post: T) -> bool {
    &&& tape_wf(pre)
    &&& pre.tail() < pre.head()
    &&& tape_wf(post)
    &&& post.tail() == pre.tail() + 1
    &&& post.head() == pre.head()
    &&& tape_unchanged(pre, post)
}

/// Any primitive mutation of the tape, as the operations' contracts state
/// them. `get_highlight` does not mutate, and `validate` is
/// `get_highlight` followed by `move_on`, so these five cover every way a
/// tape changes.
pub open spec fn tape_step<T: LexBuf>(pre: T, post: T) -> bool {
    ||| get_step(pre, post)
    ||| unget_step(pre, post)
    ||| move_on_step(pre, post)
    ||| give_up_step(pre, post)
    ||| shrink_step(pre, post)
}

/// A run of the tape: consecutive states linked by primitive operations.
pub open spec fn tape_run<T: LexBuf>(states: Seq<T>) -> bool {
    forall|k: int| 0 <= k < states.len() - 1 ==> #[trigger] tape_step(states[k], states[k + 1])
}

/// Boundary ordering: along any run of operations, `tail <= head` holds
/// in every state.
pub proof fn lemma_boundary_ordering<T: LexBuf>(states: Seq<T>)
    requires
        states.len() > 0,
        tape_wf(states[0]),
        tape_run(states),
    ensures
        forall|k: int| 0 <= k < states.len() ==> #[trigger] states[k].tail() <= states[k].head(),
{
    assert forall|k: int| 0 <= k < states.len() implies #[trigger] states[k].tail()
        <= states[k].head() by {
        if k > 0 {
            let j = k - 1;
            assert(tape_step(states[j], states[j + 1]));
        }
    }
}

/// A single operation never moves the tail left, and never lifts it above
/// the head.
pub proof fn lemma_step_tail_monotonic<T: LexBuf>(pre: T, post: T)
    requires
        tape_step(pre, post),
    ensures
        pre.tail() <= post.tail(),
        post.tail() <= post.head(),
{
}

/// Commit is monotonic and destructive: along any run, the tail never
/// moves left, and the head never returns before the starting tail. In a
/// run that begins right after a commit, no later operation — `unget`
/// included — reaches back before the commit point, and every item `get`
/// serves lies at or after it.
pub proof fn lemma_commit_destructive<T: LexBuf>(states: Seq<T>)
    requires
        states.len() > 0,
        tape_wf(states[0]),
        tape_run(states),
    ensures
        forall|k: int| 0 <= k < states.len() ==> states[0].tail() <= #[trigger] states[k].tail(),
        forall|k: int| 0 <= k < states.len() ==> states[0].tail() <= #[trigger] states[k].head(),
    decreases states.len(),
{
    if states.len() > 1 {
        let n = states.len() as int;
        let front = states.take(n - 1);
        assert(front[0] == states[0]);
        assert forall|k: int| 0 <= k < front.len() - 1 implies #[trigger] tape_step(
            front[k],
            front[k + 1],
        ) by {
            assert(tape_step(states[k], states[k + 1]));
            assert(front[k] == states[k]);
            assert(front[k + 1] == states[k + 1]);
        }
        lemma_commit_destructive(front);
        let j = n - 2;
        assert(tape_step(states[j], states[j + 1]));
        lemma_step_tail_monotonic(states[j], states[j + 1]);
        assert(front[j] == states[j]);
        assert(states[0].tail() <= front[j].tail());
        assert(states[0].tail() <= states[n - 1].tail());
        assert(states[0].tail() <= states[n - 1].head());
        assert forall|k: int| 0 <= k < states.len() implies states[0].tail()
            <= #[trigger] states[k].tail() by {
            if k < n - 1 {
                assert(front[k] == states[k]);
                assert(states[0].tail() <= front[k].tail());
            }
        }
        assert forall|k: int| 0 <= k < states.len() implies states[0].tail()
            <= #[trigger] states[k].head() by {
            if k < n - 1 {
                assert(front[k] == states[k]);
                assert(states[0].tail() <= front[k].head());
            }
        }
    }
}

/// After a commit the highlight is empty: `move_on` leaves nothing
/// between the boundaries. The same computation shows that `give_up`
/// clears the highlight too.
pub proof fn lemma_empty_highlight<T: LexBuf>(t: T)
    requires
        t.tail() == t.head(),
    ensures
        highlight_of(t) == Seq::<T::Content>::empty(),
{
    assert(highlight_of(t) =~= Seq::<T::Content>::empty());
}

/// The tape is read-only: along any run, the contents at or after a
/// state's tail are exactly what the first state already held there.
pub proof fn lemma_run_preserves_tape<T: LexBuf>(states: Seq<T>)
    requires
        states.len() > 0,
        tape_wf(states[0]),
        tape_run(states),
    ensures
        forall|k: int, i: int|
            0 <= k < states.len() && states[k].tail() <= i ==> #[trigger] states[k].at(i)
                == states[0].at(i),
    decreases states.len(),
{
    if states.len() > 1 {
        let n = states.len() as int;
        let front = states.take(n - 1);
        assert(front[0] == states[0]);
        assert forall|k: int| 0 <= k < front.len() - 1 implies #[trigger] tape_step(
            front[k],
            front[k + 1],
        ) by {
            assert(tape_step(states[k], states[k + 1]));
            assert(front[k] == states[k]);
            assert(front[k + 1] == states[k + 1]);
        }
        lemma_run_preserves_tape(front);
        let j = n - 2;
        assert(tape_step(states[j], states[j + 1]));
        lemma_step_tail_monotonic(states[j], states[j + 1]);
        assert forall|k: int, i: int|
            0 <= k < n && states[k].tail() <= i implies #[trigger] states[k].at(i) == states[0].at(
            i,
        ) by {
            if k < n - 1 {
                assert(front[k] == states[k]);
                assert(front[k].at(i) == states[0].at(i));
            } else {
                assert(front[j] == states[j]);
                assert(states[j + 1].at(i) == states[j].at(i));
                assert(front[j].at(i) == states[0].at(i));
            }
        }
    }
}

/// `get` appends the served item to the highlight.
pub proof fn lemma_get_extends<T: LexBuf>(pre: T, post: T)
    requires
        get_step(pre, post),
    ensures
        highlight_of(post) == highlight_of(pre).push(pre.at(pre.head() as int)),
{
    assert(highlight_of(post) =~= highlight_of(pre).push(pre.at(pre.head() as int)));
}

/// `unget` drops the last item of the highlight.
pub proof fn lemma_unget_drops_last<T: LexBuf>(pre: T, post: T)
    requires
        unget_step(pre, post),
    ensures
        highlight_of(post) == highlight_of(pre).drop_last(),
{
    assert(highlight_of(post) =~= highlight_of(pre).drop_last());
}

/// A run of `get` calls serves the tape contents in order: the boundaries
/// march right one position per call, and the item each call returns —
/// `at(head)`, by `get`'s contract — is the tape content at the probe's
/// starting head, offset by the number of calls made before it.
pub proof fn lemma_gets_serve_in_order<T: LexBuf>(states: Seq<T>)
    requires
        states.len() > 0,
        tape_wf(states[0]),
        forall|k: int| 0 <= k < states.len() - 1 ==> #[trigger] get_step(states[k], states[k + 1]),
    ensures
        forall|k: int|
            0 <= k < states.len() ==> #[trigger] states[k].head() == states[0].head() + k,
        forall|k: int| 0 <= k < states.len() ==> #[trigger] states[k].tail() == states[0].tail(),
        forall|k: int|
            0 <= k < states.len() - 1 ==> #[trigger] states[k].at(states[k].head() as int)
                == states[0].at(states[0].head() + k),
    decreases states.len(),
{
    if states.len() > 1 {
        let n = states.len() as int;
        let front = states.take(n - 1);
        assert(front[0] == states[0]);
        assert forall|k: int| 0 <= k < front.len() - 1 implies #[trigger] get_step(
            front[k],
            front[k + 1],
        ) by {
            assert(get_step(states[k], states[k + 1]));
            assert(front[k] == states[k]);
            assert(front[k + 1] == states[k + 1]);
        }
        lemma_gets_serve_in_order(front);
        let j = n - 2;
        assert(get_step(states[j], states[j + 1]));
        assert(front[j] == states[j]);
        assert(front[j].head() == states[0].head() + j);
        assert(front[j].tail() == states[0].tail());
        assert forall|k: int| 0 <= k < states.len() implies #[trigger] states[k].head()
            == states[0].head() + k by {
            if k < n - 1 {
                assert(front[k] == states[k]);
                assert(front[k].head() == states[0].head() + k);
            }
        }
        assert forall|k: int| 0 <= k < states.len() implies #[trigger] states[k].tail()
            == states[0].tail() by {
            if k < n - 1 {
                assert(front[k] == states[k]);
                assert(front[k].tail() == states[0].tail());
            }
        }
        assert forall|k: int|
            0 <= k < states.len() - 1 implies #[trigger] states[k].at(states[k].head() as int)
            == states[0].at(states[0].head() + k) by {
            if k < n - 2 {
                assert(front[k] == states[k]);
                assert(front[k].at(front[k].head() as int) == states[0].at(
                    states[0].head() + k,
                ));
            } else {
                assert forall|m: int| 0 <= m < states.len() - 1 implies #[trigger] tape_step(
                    states[m],
                    states[m + 1],
                ) by {
                    assert(get_step(states[m], states[m + 1]));
                }
                lemma_run_preserves_tape(states);
                assert(states[j].at(states[j].head() as int) == states[0].at(
                    states[j].head() as int,
                ));
            }
        }
    }
}

/// Discard restores the probing point: when the head is back at the place
/// a probe started from — as `give_up` puts it after any number of `get`
/// and `unget` calls — the tape serves the very same items again.
pub proof fn lemma_give_up_replays<T: LexBuf>(pre: T, post: T, n: nat)
    requires
        tape_wf(pre),
        tape_wf(post),
        post.head() == pre.head(),
        tape_unchanged(pre, post),
    ensures
        serves(post, n) == serves(pre, n),
{
    assert(serves(post, n) =~= serves(pre, n));
}

/// Unget then get is the identity: from any state with a non-empty
/// highlight, `unget` followed by `get` returns the tape to an equivalent
/// state — same boundaries, same highlight — and the item served by that
/// `get` is the last item of the original highlight.
pub proof fn lemma_unget_get_inverse<T: LexBuf>(pre: T, mid: T, post: T)
    requires
        unget_step(pre, mid),
        get_step(mid, post),
    ensures
        post.tail() == pre.tail(),
        post.head() == pre.head(),
        highlight_of(post) == highlight_of(pre),
        mid.at(mid.head() as int) == highlight_of(pre).last(),
{
    assert forall|i: int| 0 <= i < highlight_of(post).len() implies highlight_of(post)[i]
        == highlight_of(pre)[i] by {
        assert(post.at(pre.tail() + i) == mid.at(pre.tail() + i));
        assert(mid.at(pre.tail() + i) == pre.at(pre.tail() + i));
    }
    assert(highlight_of(post) =~= highlight_of(pre));
    assert(mid.at(mid.head() as int) == pre.at(pre.head() - 1));
}

/// Shrink makes progress: on a highlight of size `k > 0` it leaves a
/// highlight of size `k - 1` holding the same trailing items, the first
/// one dropped.
pub proof fn lemma_shrink_progress<T: LexBuf>(pre: T, post: T)
    requires
        shrink_step(pre, post),
    ensures
        highlight_of(post).len() + 1 == highlight_of(pre).len(),
        highlight_of(post) == highlight_of(pre).skip(1),
{
    assert(highlight_of(post) =~= highlight_of(pre).skip(1));
}

} // verus!
