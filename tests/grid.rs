use cellsim::grid::{Cell, CellData, Grid};
use cellsim::uid::{UidCounter, UID};

#[test]
fn grid_cells_take_fresh_ids() {
    let mut counter = UidCounter::new();
    let a = Cell::new(CellData::Energy(5), &mut counter);
    let b = Cell::new(CellData::Blackhole(a.id), &mut counter);
    assert_eq!(a.id, UID { id: 0 });
    assert_eq!(b.id, UID { id: 1 });
    assert_eq!(b.data, CellData::Blackhole(UID { id: 0 }));
    assert_eq!(UID::peek(&counter), 2);
}

#[test]
fn empty_grid() {
    let _g: Grid<4> = Grid::new();
    let _big: Grid<64> = Grid::new();
}
