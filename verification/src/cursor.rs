//! A window over a slice that can move forward and backward within the slice.
use core::ops::Range;

use vstd::prelude::*;

use crate::error::{check, Error};

verus! {

/// The bounds of a cursor within its slice.
#[derive(Debug, Copy, Clone, PartialEq, Eq, Structural)]
pub struct CursorState {
    start: usize,
    end: usize,
}

impl CursorState {
    pub closed spec fn spec_start(self) -> usize {
        self.start
    }

    pub closed spec fn spec_end(self) -> usize {
        self.end
    }

    /// The bounds of a range.
    pub fn from_range(range: Range<usize>) -> (r: Self)
        ensures
            r.spec_start() == range.start,
            r.spec_end() == range.end,
    {
        CursorState { start: range.start, end: range.end }
    }

    pub fn start(self) -> (r: usize)
        ensures
            r == self.spec_start(),
    {
        self.start
    }

    pub fn end(self) -> (r: usize)
        ensures
            r == self.spec_end(),
    {
        self.end
    }

    fn new(len: usize) -> (r: Self)
        ensures
            r.start == 0,
            r.end == len,
    {
        CursorState { start: 0, end: len }
    }

    fn is_empty(self) -> (r: bool)
        ensures
            r == (self.end == self.start),
    {
        self.end == self.start
    }

    fn len(self) -> (r: usize)
        requires
            self.start <= self.end,
        ensures
            r == self.end - self.start,
    {
        self.end - self.start
    }
}

/// A window `[start, end)` over a slice.
#[derive(Debug)]
pub struct Cursor<'a, T> {
    slice: &'a [T],
    state: CursorState,
}

impl<'a, T> View for Cursor<'a, T> {
    type V = Seq<T>;

    closed spec fn view(&self) -> Seq<T> {
        self.slice@.subrange(self.state.start as int, self.state.end as int)
    }
}

impl<'a, T> Cursor<'a, T> {
    pub closed spec fn wf(&self) -> bool {
        self.state.start <= self.state.end <= self.slice@.len()
    }

    /// The whole slice the cursor moves in.
    pub closed spec fn base(&self) -> Seq<T> {
        self.slice@
    }

    pub closed spec fn spec_state(&self) -> CursorState {
        self.state
    }

    pub proof fn lemma_view(&self)
        requires
            self.wf(),
        ensures
            self@ == self.base().subrange(
                self.spec_state().spec_start() as int,
                self.spec_state().spec_end() as int,
            ),
            self.spec_state().spec_start() <= self.spec_state().spec_end() <= self.base().len(),
    {
    }

    /// A cursor over the whole slice.
    pub fn new(slice: &'a [T]) -> (r: Self)
        ensures
            r.wf(),
            r@ == slice@,
            r.base() == slice@,
    {
        let r = Cursor { slice, state: CursorState::new(slice.len()) };
        assert(r@ =~= slice@);
        r
    }

    /// Restricts the slice to the current window.
    pub fn shrink(&mut self)
        requires
            old(self).wf(),
        ensures
            final(self).wf(),
            final(self)@ == old(self)@,
            final(self).base() == old(self)@,
    {
        self.slice = vstd::slice::slice_subrange(self.slice, self.state.start, self.state.end);
        self.state.start = 0;
        self.state.end = self.slice.len();
        assert(self@ =~= old(self)@);
    }

    /// Returns the current window, to be restored later.
    pub fn save(&self) -> (r: CursorState)
        ensures
            r == self.spec_state(),
    {
        self.state
    }

    /// Restores a window of the same slice.
    pub fn restore(&mut self, state: CursorState)
        requires
            state.spec_start() <= state.spec_end() <= old(self).base().len(),
        ensures
            final(self).wf(),
            final(self).base() == old(self).base(),
            final(self).spec_state() == state,
    {
        self.state = state;
    }

    pub fn is_empty(&self) -> (r: bool)
        requires
            self.wf(),
        ensures
            r == (self@.len() == 0),
    {
        self.state.is_empty()
    }

    /// The element at `index` in the window.
    pub fn get(&self, index: usize) -> (r: &'a T)
        requires
            self.wf(),
            index < self@.len(),
        ensures
            *r == self@[index as int],
    {
        &self.slice[self.state.start + index]
    }

    /// Splits off the first `len` elements of the window.
    pub fn split(&mut self, len: usize) -> (r: Result<Cursor<'a, T>, Error>)
        requires
            old(self).wf(),
        ensures
            match r {
                Ok(c) => len <= old(self)@.len() && c.wf() && c@ == old(self)@.take(len as int)
                    && final(self).wf() && final(self)@ == old(self)@.skip(len as int)
                    && final(self).base() == old(self).base() && c.base() == old(self).base(),
                Err(e) => len > old(self)@.len() && e == Error::Invalid && *final(self) == *old(
                    self,
                ),
            },
    {
        check(len <= self.state.len())?;
        let result = Cursor {
            slice: self.slice,
            state: CursorState { start: self.state.start, end: self.state.start + len },
        };
        self.state.start = self.state.start + len;
        assert(result@ =~= old(self)@.take(len as int));
        assert(self@ =~= old(self)@.skip(len as int));
        Ok(result)
    }

    /// The elements of the window.
    pub fn consume(self) -> (r: &'a [T])
        requires
            self.wf(),
        ensures
            r@ == self@,
    {
        vstd::slice::slice_subrange(self.slice, self.state.start, self.state.end)
    }

    /// Moves the start of the window by `off` elements.
    pub fn adjust_start(&mut self, off: isize)
        requires
            old(self).wf(),
            0 <= old(self).spec_state().spec_start() + off <= old(self).spec_state().spec_end(),
        ensures
            final(self).wf(),
            final(self).base() == old(self).base(),
            final(self).spec_state().spec_start() == old(self).spec_state().spec_start() + off,
            final(self).spec_state().spec_end() == old(self).spec_state().spec_end(),
    {
        let new_start = if off >= 0 {
            self.state.start + (off as usize)
        } else {
            self.state.start - ((0 - (off as i128)) as usize)
        };
        self.state.start = new_start;
    }
}

} // verus!
