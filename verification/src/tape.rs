//! The tape abstraction: the [`LexBuf`] trait and the [`LexIter`] adapter.

use vstd::prelude::*;

verus! {

/// A read-once tape over an item stream, with two boundaries.
///
/// # Abstract view
///
/// A `LexBuf` is an infinite read-only tape of items together with two
/// pointers on it, *tail* and *head*, that delimit the current *highlight*
/// `[tail, head)`. In specifications the tape contents are given by
/// [`LexBuf::at`], the pointers by [`LexBuf::tail`] and [`LexBuf::head`].
/// Every operation keeps `tail <= head`, and no operation ever changes an
/// item of the tape at or after the tail; [`highlight_of`] and
/// [`tape_unchanged`] spell both out, and the laws of the crate are proved
/// from the contracts below alone.
///
/// # Caveats
///
/// One can never go back beyond the tail: once the current highlight has
/// been committed with [`LexBuf::move_on`], its items are definitely lost.
/// `unget` past the tail and `shrink` on an empty highlight are caller
/// errors, excluded by the operations' preconditions.
pub trait LexBuf: Sized {
    /// The items the tape serves.
    type Content;

    /// The implementation's private well-formedness condition, established
    /// by its constructors and preserved by every operation.
    spec fn inv(&self) -> bool;

    /// The left boundary: items before it are permanently consumed.
    spec fn tail(&self) -> nat;

    /// The right boundary: the current read position.
    spec fn head(&self) -> nat;

    /// The tape contents: the item served at absolute position `i`.
    spec fn at(&self, i: int) -> Self::Content;

    /// Returns the item under the head and moves the head forward,
    /// extending the highlight by that item on the right.
    ///
    /// A backing store past its end keeps serving its end indicator, so
    /// `get` may be called arbitrarily many times.
    fn get(&mut self) -> (r: Self::Content)
        requires
            old(self).inv(),
            old(self).tail() <= old(self).head(),
        ensures
            final(self).inv(),
            final(self).tail() == old(self).tail(),
            final(self).head() == old(self).head() + 1,
            r == old(self).at(old(self).head() as int),
            forall|i: int|
                old(self).tail() <= i ==> #[trigger] final(self).at(i) == old(self).at(i),
    ;

    /// Moves the head backward by one item, shrinking the highlight on the
    /// right.
    ///
    /// Calling `unget` with an empty highlight (more `unget` than `get`
    /// since the last commit or discard) is a caller error: the
    /// precondition excludes it.
    fn unget(&mut self)
        requires
            old(self).inv(),
            old(self).tail() < old(self).head(),
        ensures
            final(self).inv(),
            final(self).tail() == old(self).tail(),
            final(self).head() + 1 == old(self).head(),
            forall|i: int|
                old(self).tail() <= i ==> #[trigger] final(self).at(i) == old(self).at(i),
    ;

    /// Commits the current highlight: moves the tail up to the head,
    /// resetting the highlight to the empty one. The committed items are
    /// permanently unreachable afterwards.
    fn move_on(&mut self)
        requires
            old(self).inv(),
            old(self).tail() <= old(self).head(),
        ensures
            final(self).inv(),
            final(self).tail() == old(self).head(),
            final(self).head() == old(self).head(),
            forall|i: int|
                old(self).tail() <= i ==> #[trigger] final(self).at(i) == old(self).at(i),
    ;

    /// Gives up on the current highlight: moves the head back to the tail,
    /// so the tape is back in the state it was in right after the last
    /// commit (or after construction). The items stay on the tape and the
    /// next `get` calls serve them again.
    fn give_up(&mut self)
        requires
            old(self).inv(),
            old(self).tail() <= old(self).head(),
        ensures
            final(self).inv(),
            final(self).tail() == old(self).tail(),
            final(self).head() == old(self).tail(),
            forall|i: int|
                old(self).tail() <= i ==> #[trigger] final(self).at(i) == old(self).at(i),
    ;

    /// Returns the current highlight, in order, without moving a boundary.
    fn get_highlight(&self) -> (r: Vec<Self::Content>)
        requires
            self.inv(),
            self.tail() <= self.head(),
        ensures
            r@.len() == self.head() - self.tail(),
            forall|i: int| 0 <= i < r@.len() ==> #[trigger] r@[i] == self.at(self.tail() + i),
    ;

    /// Shrinks the current highlight on the left: moves the tail forward
    /// by one item, dropping the first item of the highlight.
    ///
    /// Calling `shrink` with an empty highlight is a caller error: the
    /// precondition excludes it.
    fn shrink(&mut self)
        requires
            old(self).inv(),
            old(self).tail() < old(self).head(),
        ensures
            final(self).inv(),
            final(self).tail() == old(self).tail() + 1,
            final(self).head() == old(self).head(),
            forall|i: int|
                old(self).tail() <= i ==> #[trigger] final(self).at(i) == old(self).at(i),
    ;

    /// Returns the current highlight and commits it: exactly
    /// `get_highlight` followed by `move_on`, built from the primitives
    /// alone, so every conforming backing store gets it for free.
    fn validate(&mut self) -> (r: Vec<Self::Content>)
        requires
            old(self).inv(),
            old(self).tail() <= old(self).head(),
        ensures
            final(self).inv(),
            r@.len() == old(self).head() - old(self).tail(),
            forall|i: int|
                0 <= i < r@.len() ==> #[trigger] r@[i] == old(self).at(old(self).tail() + i),
            final(self).tail() == old(self).head(),
            final(self).head() == old(self).head(),
            forall|i: int|
                old(self).tail() <= i ==> #[trigger] final(self).at(i) == old(self).at(i),
    {
        let r = self.get_highlight();
        self.move_on();
        r
    }

    /// Wraps the tape in an iteration adapter, so that `next`-style
    /// sequence processing may drive it. The adapter owns the tape for the
    /// duration of the pass; [`LexIter::into_inner`] hands it back.
    fn iter(self) -> (it: LexIter<Self>)
        ensures
            it.lb == self,
    {
        LexIter { lb: self }
    }
}

/// A well-formed tape satisfies its private invariant and keeps its
/// boundaries ordered: `tail <= head`.
pub open spec fn tape_wf<T: LexBuf>(t: T) -> bool {
    &&& t.inv()
    &&& t.tail() <= t.head()
}

/// The current highlight of a tape: its contents on the span
/// `[tail, head)`.
pub open spec fn highlight_of<T: LexBuf>(t: T) -> Seq<T::Content> {
    Seq::new((t.head() - t.tail()) as nat, |i: int| t.at(t.tail() + i))
}

/// The tape contents at or after the tail of `pre` are the same in
/// `post`: no operation rewrites the reachable part of the tape.
pub open spec fn tape_unchanged<T: LexBuf>(pre: T, post: T) -> bool {
    forall|i: int| pre.tail() <= i ==> #[trigger] post.at(i) == pre.at(i)
}

/// The items that the next `n` calls to `get` will return, in order:
/// `get` serves `at(head)` and moves the head forward, so from the state
/// `t` it serves the tape contents starting at the head.
pub open spec fn serves<T: LexBuf>(t: T, n: nat) -> Seq<T::Content> {
    Seq::new(n, |i: int| t.at(t.head() + i))
}

/// An iteration adapter over a tape.
///
/// The main use case is to resort to `next`-style sequence processing to
/// recognize tokens. The adapter owns the tape for the duration of the
/// pass and produces no state of its own: its `next` has the same effect
/// on the tape as calling `get` directly.
pub struct LexIter<T: LexBuf> {
    /// The adapted tape.
    pub lb: T,
}

impl<T: LexBuf> LexIter<T> {
    /// Hands the adapted tape back, with every effect of the pass applied.
    pub fn into_inner(self) -> (t: T)
        ensures
            t == self.lb,
    {
        self.lb
    }
}

} // verus!
