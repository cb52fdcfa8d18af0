use ndarray::Array2;
use vstd::prelude::*;
use vstd::rwlock::RwLockPredicate;

use crate::pool::Pool;
use crate::uid::{UidCounter, UID};

verus! {

/// The grid's index: an ndarray `Array2` of identifiers, held opaquely.
#[verifier::external_body]
#[derive(Debug)]
pub struct GridIndex {
    inner: Array2<Option<UID>>,
}

/// The slots of a grid index, row by row.
pub uninterp spec fn index_slots(a: GridIndex) -> Seq<Option<UID>>;

/// Relies on ndarray's `Array2::from_elem`: an `n` by `n` array, stored row
/// by row, every slot holding a clone of `None`. It panics where `n * n`
/// overflows `isize`.
#[verifier::external_body]
fn empty_index(n: usize) -> (r: GridIndex)
    requires
        n * n <= isize::MAX,
    ensures
        index_slots(r) == Seq::new((n * n) as nat, |_i: int| None::<UID>),
{
    GridIndex { inner: Array2::from_elem((n, n), None) }
}

/// What a grid cell holds.
#[derive(Debug, Clone, Copy, PartialEq, Eq, Structural)]
pub enum CellData {
    Energy(i64),
    Blackhole(UID),
    Whitehole(UID),
}

/// A cell of a [`Grid`], identified by a [`UID`].
#[derive(Debug, Clone, Copy)]
pub struct Cell {
    pub id: UID,
    pub data: CellData,
}

impl Cell {
    /// A cell holding `data` under the counter's next identifier.
    pub fn new(data: CellData, counter: &mut UidCounter) -> (r: Self)
        requires
            old(counter)@ < u64::MAX,
        ensures
            r.id.id == old(counter)@,
            r.data == data,
            final(counter)@ == old(counter)@ + 1,
    {
        let id = UID::new(counter);
        Cell { id, data }
    }
}

/// The lock predicate of grid cells: every cell is acceptable.
pub struct AnyCell;

impl RwLockPredicate<Cell> for AnyCell {
    open spec fn inv(self, c: Cell) -> bool {
        true
    }
}

/// An `N` by `N` grid: a pool of cells by identifier and an index that
/// places identifiers on the grid.
pub struct Grid<const N: usize> {
    data: Pool<u64, Cell, AnyCell>,
    index: GridIndex,
}

impl<const N: usize> Grid<N> {
    /// The identifiers on the grid, row by row.
    pub closed spec fn slots(&self) -> Seq<Option<UID>> {
        index_slots(self.index)
    }

    pub closed spec fn cells(&self) -> Map<u64, AnyCell> {
        self.data@
    }

    /// The grid's index.
    pub fn index(&self) -> (r: &GridIndex)
        ensures
            index_slots(*r) == self.slots(),
    {
        &self.index
    }

    /// An empty grid: no cells, every slot free.
    pub fn new() -> (r: Self)
        requires
            N * N <= isize::MAX,
        ensures
            r.cells() == Map::<u64, AnyCell>::empty(),
            r.slots() == Seq::new((N * N) as nat, |_i: int| None::<UID>),
    {
        let data = Pool::new();
        let index = empty_index(N);
        Grid { data, index }
    }
}

} // verus!
