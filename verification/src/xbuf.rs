//! Growable arenas of fixed-width elements.
//!
//! An [`XBuf`] only ever gets longer: indices that were valid stay valid and
//! keep their contents when the arena grows.
use vstd::prelude::*;

verus! {

/// Types with a distinguished "zero" value that fresh arena cells are filled with.
pub trait SafelyZero: Copy + Sized {
    /// The zero value, as a specification.
    spec fn zero_value() -> Self;

    /// The zero value.
    fn zero() -> (z: Self)
        ensures
            z == Self::zero_value(),
    ;
}

impl SafelyZero for u8 {
    open spec fn zero_value() -> u8 {
        0
    }

    fn zero() -> (z: u8) {
        0
    }
}

impl SafelyZero for usize {
    open spec fn zero_value() -> usize {
        0
    }

    fn zero() -> (z: usize) {
        0
    }
}

impl SafelyZero for i32 {
    open spec fn zero_value() -> i32 {
        0
    }

    fn zero() -> (z: i32) {
        0
    }
}

impl SafelyZero for bool {
    open spec fn zero_value() -> bool {
        false
    }

    fn zero() -> (z: bool) {
        false
    }
}

/// A sequence of `n` zero values.
pub open spec fn zeros<T: SafelyZero>(n: nat) -> Seq<T> {
    Seq::new(n, |i: int| T::zero_value())
}

/// A growable arena. Its view is the sequence of its cells.
pub struct XBuf<T: SafelyZero> {
    cells: Vec<T>,
}

impl<T: SafelyZero> View for XBuf<T> {
    type V = Seq<T>;

    closed spec fn view(&self) -> Seq<T> {
        self.cells@
    }
}

impl<T: SafelyZero> XBuf<T> {
    /// An arena of `init_len + 1` zeroed cells, so that `init_len` itself is a valid index.
    pub fn new(init_len: usize) -> (buf: XBuf<T>)
        requires
            init_len < usize::MAX,
        ensures
            buf@ == zeros::<T>((init_len + 1) as nat),
    {
        let mut buf = XBuf { cells: Vec::new() };
        buf.grow(init_len + 1);
        buf
    }

    /// Appends `grow_by` zeroed cells; the cells that were there keep index and content.
    pub fn grow(&mut self, grow_by: usize)
        ensures
            final(self)@ == old(self)@ + zeros::<T>(grow_by as nat),
    {
        let mut added: usize = 0;
        while added < grow_by
            invariant
                added <= grow_by,
                self@ == old(self)@ + zeros::<T>(added as nat),
            decreases grow_by - added,
        {
            self.cells.push(T::zero());
            added += 1;
        }
    }

    /// Number of cells.
    pub fn len(&self) -> (n: usize)
        ensures
            n == self@.len(),
    {
        self.cells.len()
    }

    /// The cell at `pos`.
    pub fn get(&self, pos: usize) -> (value: T)
        requires
            pos < self@.len(),
        ensures
            value == self@[pos as int],
    {
        self.cells[pos]
    }

    /// Overwrites the cell at `pos`.
    pub fn set(&mut self, pos: usize, value: T)
        requires
            pos < old(self)@.len(),
        ensures
            final(self)@ == old(self)@.update(pos as int, value),
    {
        self.cells.set(pos, value);
    }

    /// Overwrites every cell with `value`.
    pub fn fill(&mut self, value: T)
        ensures
            final(self)@ == Seq::new(old(self)@.len(), |i: int| value),
    {
        let n = self.cells.len();
        let mut pos: usize = 0;
        while pos < n
            invariant
                pos <= n,
                n == self@.len(),
                self@.len() == old(self)@.len(),
                forall|i: int| 0 <= i < pos ==> self@[i] == value,
            decreases n - pos,
        {
            self.cells.set(pos, value);
            pos += 1;
        }
    }

    /// The cells from `start` up to, not including, `end`.
    pub fn slice(&self, start: usize, end: usize) -> (cells: &[T])
        requires
            start <= end <= self@.len(),
        ensures
            cells@ == self@.subrange(start as int, end as int),
    {
        vstd::slice::slice_subrange(self.cells.as_slice(), start, end)
    }
}

/// Whether the cells from `start` up to `end` are in ascending order.
pub open spec fn ascending(cells: Seq<usize>, start: int, end: int) -> bool {
    forall|i: int, j: int| start <= i <= j < end ==> cells[i] <= cells[j]
}

impl XBuf<usize> {
    /// Sorts the cells from `start` up to `end` with `sort` of slices.
    ///
    /// Believed of `sort`: afterwards those cells hold the values that
    /// they held before, in ascending order, and no other cell has changed.
    #[verifier::external_body]
    pub(crate) fn sort_range(&mut self, start: usize, end: usize)
        requires
            start <= end <= old(self)@.len(),
        ensures
            final(self)@.len() == old(self)@.len(),
            forall|i: int|
                0 <= i < start || end <= i < old(self)@.len() ==> final(self)@[i] == old(self)@[i],
            ascending(final(self)@, start as int, end as int),
            final(self)@.subrange(start as int, end as int).to_multiset() == old(self)@.subrange(
                start as int,
                end as int,
            ).to_multiset(),
    {
        self.cells[start..end].sort();
    }
}

} // verus!
