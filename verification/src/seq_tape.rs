//! A tape backed by an in-memory sequence of items.

use crate::tape::highlight_of;
use crate::tape::tape_unchanged;
use crate::tape::tape_wf;
use crate::tape::LexBuf;
use crate::tape::LexIter;
use vstd::std_specs::cmp::PartialEqSpec;
use vstd::prelude::*;

verus! {

/// A [`LexBuf`] over an in-memory sequence.
///
/// The conceptual tape is the source sequence followed by an infinite run
/// of a designated end indicator: once the source is exhausted, `get`
/// serves the end indicator over and over. The end indicator therefore
/// must not occur as legitimate data; callers pick one that cannot.
///
/// Items pulled from the source since the last commit are buffered, so
/// that `give_up` can rewind the head and the same items are served again.
pub struct SeqTape<C> {
    /// The tape contents at absolute positions `[base, base + buf.len())`:
    /// everything pulled since the last commit, kept for replay.
    buf: Vec<C>,
    /// The head, relative to the tail: the highlight is `buf[0..off]`.
    off: usize,
    /// The backing sequence: the tape contents at positions `[0, src.len())`.
    src: Vec<C>,
    /// The next source position to pull: how far the tape has been read.
    spos: usize,
    /// The end indicator, served at every position past the source.
    end: C,
    /// The absolute position of the tail.
    base: Ghost<nat>,
}

impl<C: Copy> SeqTape<C> {
    /// The end indicator, for specifications.
    pub closed spec fn end_spec(&self) -> C {
        self.end
    }

    /// Creates a tape over `src`, with `end` as the end indicator.
    ///
    /// Both boundaries start at the first item of `src`.
    pub fn new(src: Vec<C>, end: C) -> (t: SeqTape<C>)
        ensures
            tape_wf(t),
            t.tail() == 0,
            t.head() == 0,
            t.end_spec() == end,
            forall|i: int| 0 <= i < src@.len() ==> #[trigger] t.at(i) == src@[i],
            forall|i: int| i >= src@.len() ==> #[trigger] t.at(i) == end,
    {
        SeqTape { buf: Vec::new(), off: 0, src, spos: 0, end, base: Ghost(0) }
    }

    /// The end indicator this tape was created with.
    pub fn get_endind(&self) -> (r: C)
        ensures
            r == self.end_spec(),
    {
        self.end
    }
}

impl SeqTape<u8> {
    /// Creates a byte tape over `src`, reserving zero as the end
    /// indicator: the byte-stream convention where the input is known
    /// never to contain a zero byte.
    pub fn new_bytes(src: Vec<u8>) -> (t: SeqTape<u8>)
        ensures
            tape_wf(t),
            t.tail() == 0,
            t.head() == 0,
            t.end_spec() == 0u8,
            forall|i: int| 0 <= i < src@.len() ==> #[trigger] t.at(i) == src@[i],
            forall|i: int| i >= src@.len() ==> #[trigger] t.at(i) == 0u8,
    {
        SeqTape::new(src, 0)
    }
}

impl<C: Copy> LexBuf for SeqTape<C> {
    type Content = C;

    closed spec fn inv(&self) -> bool {
        &&& self.off <= self.buf@.len()
        &&& self.spos <= self.src@.len()
        &&& if self.base@ + self.buf@.len() <= self.src@.len() {
            self.spos == self.base@ + self.buf@.len()
        } else {
            self.spos == self.src@.len()
        }
        &&& forall|i: int|
            0 <= i < self.buf@.len() ==> #[trigger] self.buf@[i] == self.at(self.base@ + i)
    }

    closed spec fn tail(&self) -> nat {
        self.base@
    }

    closed spec fn head(&self) -> nat {
        (self.base@ + self.off) as nat
    }

    closed spec fn at(&self, i: int) -> C {
        if 0 <= i < self.src@.len() {
            self.src@[i]
        } else {
            self.end
        }
    }

    fn get(&mut self) -> (r: C)
        ensures
            final(self).end_spec() == old(self).end_spec(),
    {
        let r: C;
        if self.off < self.buf.len() {
            r = self.buf[self.off];
        } else {
            if self.spos < self.src.len() {
                r = self.src[self.spos];
                self.spos = self.spos + 1;
            } else {
                r = self.end;
            }
            self.buf.push(r);
        }
        // The head now sits strictly inside the buffer, so advancing it
        // stays within the buffer's length.
        let n = self.buf.len();
        proof {
            assert(self.off < n);
        }
        self.off = self.off + 1;
        r
    }

    fn unget(&mut self)
        ensures
            final(self).end_spec() == old(self).end_spec(),
    {
        self.off = self.off - 1;
    }

    fn move_on(&mut self)
        ensures
            final(self).end_spec() == old(self).end_spec(),
    {
        let mut kept: Vec<C> = Vec::new();
        let mut i: usize = self.off;
        while i < self.buf.len()
            invariant
                self == old(self),
                self.off <= i <= self.buf@.len(),
                kept@ == self.buf@.subrange(old(self).off as int, i as int),
            decreases self.buf@.len() - i,
        {
            kept.push(self.buf[i]);
            i = i + 1;
        }
        self.base = Ghost(self.base@ + self.off as nat);
        self.buf = kept;
        self.off = 0;
    }

    fn give_up(&mut self)
        ensures
            final(self).end_spec() == old(self).end_spec(),
    {
        self.off = 0;
    }

    fn get_highlight(&self) -> (r: Vec<C>) {
        let mut out: Vec<C> = Vec::new();
        let mut i: usize = 0;
        while i < self.off
            invariant
                i <= self.off,
                self.off <= self.buf@.len(),
                out@ == self.buf@.subrange(0, i as int),
            decreases self.off - i,
        {
            out.push(self.buf[i]);
            i = i + 1;
        }
        out
    }

    fn shrink(&mut self)
        ensures
            final(self).end_spec() == old(self).end_spec(),
    {
        self.buf.remove(0);
        self.off = self.off - 1;
        self.base = Ghost(self.base@ + 1);
    }
}

impl<C: Copy + PartialEq> LexIter<SeqTape<C>> {
    /// Reports the next item of the tape, or no more items once the item
    /// under the head is the tape's end indicator.
    ///
    /// This calls `get`, so it has already moved the head and extended
    /// the highlight by one item either way: probing past the end still
    /// extends the highlight, exactly as `get` does.
    pub fn next(&mut self) -> (r: Option<C>)
        requires
            <C as vstd::std_specs::cmp::PartialEqSpec>::obeys_eq_spec(),
            tape_wf(old(self).lb),
        ensures
            tape_wf(final(self).lb),
            final(self).lb.tail() == old(self).lb.tail(),
            final(self).lb.head() == old(self).lb.head() + 1,
            tape_unchanged(old(self).lb, final(self).lb),
            final(self).lb.end_spec() == old(self).lb.end_spec(),
            highlight_of(final(self).lb) == highlight_of(old(self).lb).push(
                old(self).lb.at(old(self).lb.head() as int),
            ),
            r == (if old(self).lb.at(old(self).lb.head() as int).eq_spec(
                &old(self).lb.end_spec(),
            ) {
                None::<C>
            } else {
                Some(old(self).lb.at(old(self).lb.head() as int))
            }),
    {
        let e = self.lb.get_endind();
        let c = self.lb.get();
        proof {
            assert(highlight_of(self.lb) =~= highlight_of(old(self).lb).push(
                old(self).lb.at(old(self).lb.head() as int),
            ));
        }
        if c == e {
            None
        } else {
            Some(c)
        }
    }
}

} // verus!
