use cellsim::cell::{Cell, CellID};
use cellsim::material::Registry;
use cellsim::pos::{Offset, Position};
use cellsim::space::{gradient, CellHandle, Cells, Force, SpaceError};
use cellsim::uid::{UidCounter, UID};

const CATALOG: &str = "\
name,comment,phase,molar_mass,cold_temp,cold_product,hot_temp,hot_product
void,empty space,solid,,,,100000,void
water,liquid water,liquid,,0,ice,100,steam
steam,water vapour,gas,18,100,water,,
ice,frozen water,solid,,,,0,water
";

fn registry() -> Registry {
    Registry::load(CATALOG).unwrap()
}

fn cell(reg: &Registry, x: i32, y: i32, name: &str, mass: u64, temp: i32) -> Cell {
    Cell::new(reg, Position::new(x, y), name, mass, temp).unwrap()
}

fn id_of(h: &CellHandle) -> CellID {
    let g = h.acquire_read();
    let id = g.borrow().id();
    g.release_read();
    id
}

fn pos_of(h: &CellHandle) -> Position {
    let g = h.acquire_read();
    let p = g.borrow().pos();
    g.release_read();
    p
}

#[test]
fn add_assigns_fresh_ids() {
    let reg = registry();
    let mut cells = Cells::new(&reg);
    let a = cells.add(cell(&reg, 0, 0, "water", 1000, 2000)).unwrap();
    let b = cells.add(cell(&reg, 1, 0, "water", 1000, 2000)).unwrap();
    assert_eq!(a, CellID::new(0));
    assert_eq!(b, CellID::new(1));
    assert_eq!(cells.len(), 2);
    assert_eq!(cells.next_id(), 2);
    assert_eq!(id_of(&cells.get_by_id(b).unwrap()), b);
    assert!(cells.get_by_id(CellID::new(7)).is_none());
}

#[test]
fn add_rejects_occupied_position() {
    let reg = registry();
    let mut cells = Cells::new(&reg);
    cells.add(cell(&reg, 3, 4, "ice", 10, -100)).unwrap();
    assert_eq!(cells.add(cell(&reg, 3, 4, "water", 10, 100)), Err(SpaceError::Occupied));
    assert_eq!(cells.len(), 1);
}

#[test]
fn lookup_by_position() {
    let reg = registry();
    let mut cells = Cells::new(&reg);
    let a = cells.add(cell(&reg, -2, 5, "ice", 10, -100)).unwrap();
    assert_eq!(id_of(&cells.get_by_position(Position::new(-2, 5)).unwrap()), a);
    assert!(cells.get_by_position(Position::new(5, -2)).is_none());
}

#[test]
fn nearest_prefers_earliest_among_ties() {
    let reg = registry();
    let mut cells = Cells::new(&reg);
    assert!(cells.get_nearest_by_position(Position::new(0, 0)).is_none());
    let east = cells.add(cell(&reg, 1, 0, "ice", 10, -100)).unwrap();
    let west = cells.add(cell(&reg, -1, 0, "ice", 10, -100)).unwrap();
    let far = cells.add(cell(&reg, 10, 10, "ice", 10, -100)).unwrap();
    assert_eq!(id_of(&cells.get_nearest_by_position(Position::new(0, 0)).unwrap()), east);
    assert_eq!(id_of(&cells.get_nearest_by_position(Position::new(-3, 0)).unwrap()), west);
    assert_eq!(id_of(&cells.get_nearest_by_position(Position::new(8, 9)).unwrap()), far);
    assert_eq!(id_of(&cells.get_nearest_by_id(west).unwrap()), west);
    assert!(cells.get_nearest_by_id(CellID::new(99)).is_none());
}

#[test]
fn range_query_is_exact() {
    let reg = registry();
    let mut cells = Cells::new(&reg);
    for (x, y) in [(0, 0), (3, 4), (3, 5), (-5, 0), (1, 1)] {
        cells.add(cell(&reg, x, y, "ice", 10, -100)).unwrap();
    }
    let found: Vec<(u128, Position)> = cells
        .iter_within_range(Position::new(0, 0), 5)
        .iter()
        .map(|(d, h)| (*d, pos_of(h)))
        .collect();
    assert_eq!(
        found,
        vec![(0, Position::new(0, 0)), (25, Position::new(3, 4)), (25, Position::new(-5, 0)), (2, Position::new(1, 1))]
    );
    assert!(cells.iter_within_range(Position::new(100, 100), 1).is_empty());
    let all: Vec<(u128, Position)> =
        cells.iter_near_position(Position::new(0, 0)).iter().map(|(d, h)| (*d, pos_of(h))).collect();
    assert_eq!(
        all,
        vec![
            (0, Position::new(0, 0)),
            (2, Position::new(1, 1)),
            (25, Position::new(3, 4)),
            (25, Position::new(-5, 0)),
            (34, Position::new(3, 5)),
        ]
    );
}

#[test]
fn neighbours_in_direction_order() {
    let reg = registry();
    let mut cells = Cells::new(&reg);
    let centre = cells.add(cell(&reg, 0, 0, "ice", 10, -100)).unwrap();
    let right = cells.add(cell(&reg, 1, 0, "ice", 10, -100)).unwrap();
    let up = cells.add(cell(&reg, 0, -1, "ice", 10, -100)).unwrap();
    cells.add(cell(&reg, 2, 0, "ice", 10, -100)).unwrap();
    let ns: Vec<CellID> = cells.get_neighbour_by_id(centre).unwrap().iter().map(id_of).collect();
    assert_eq!(ns, vec![up, right]);
    assert!(cells.get_neighbour_by_id(CellID::new(42)).is_none());
}

#[test]
fn neighbours_at_the_edge_of_the_grid() {
    let reg = registry();
    let mut cells = Cells::new(&reg);
    let corner = cells.add(cell(&reg, i32::MAX, i32::MAX, "ice", 10, -100)).unwrap();
    let left = cells.add(cell(&reg, i32::MAX - 1, i32::MAX, "ice", 10, -100)).unwrap();
    let ns: Vec<CellID> = cells.get_neighbour_by_id(corner).unwrap().iter().map(id_of).collect();
    assert_eq!(ns, vec![left]);
}

#[test]
fn remove_updates_every_index() {
    let reg = registry();
    let mut cells = Cells::new(&reg);
    let a = cells.add(cell(&reg, 0, 0, "ice", 10, -100)).unwrap();
    let b = cells.add(cell(&reg, 1, 0, "ice", 10, -100)).unwrap();
    let held = cells.get_by_id(a).unwrap();
    let removed = cells.remove(a).unwrap();
    assert_eq!(id_of(&removed), a);
    assert_eq!(id_of(&held), a);
    assert!(cells.get_by_id(a).is_none());
    assert!(cells.get_by_position(Position::new(0, 0)).is_none());
    assert_eq!(id_of(&cells.get_nearest_by_position(Position::new(0, 0)).unwrap()), b);
    assert!(cells.remove(a).is_none());
    let c = cells.add(cell(&reg, 0, 0, "ice", 10, -100)).unwrap();
    assert_eq!(c, CellID::new(2));
}

#[test]
fn write_through_a_handle() {
    let reg = registry();
    let mut cells = Cells::new(&reg);
    let a = cells.add(cell(&reg, 0, 0, "water", 1000, 2000)).unwrap();
    let h = cells.get_by_id(a).unwrap();
    let (mut c, w) = h.acquire_write();
    c.heat(&reg, 13000);
    w.release_write(c);
    let again = cells.get_by_position(Position::new(0, 0)).unwrap();
    let g = again.acquire_read();
    assert!(g.borrow().is_gas());
    assert_eq!(g.borrow().get_material().ty().name(&reg), "steam");
    g.release_read();
}

#[test]
fn gradient_of_one_east_neighbour() {
    let mut ps = vec![None; 8];
    ps[3] = Some(4);
    assert_eq!(gradient(&ps), Force { x: 4, y: 0 });
    let mut ps = vec![None; 8];
    ps[0] = Some(10);
    ps[7] = Some(3);
    assert_eq!(gradient(&ps), Force { x: 3, y: -7 });
    assert_eq!(gradient(&vec![None; 8]), Force { x: 0, y: 0 });
}

#[test]
fn gas_force_from_neighbours() {
    let reg = registry();
    let mut cells = Cells::new(&reg);
    let origin = cell(&reg, 0, 0, "steam", 1000, 15000);
    cells.add(origin.clone()).unwrap();
    let east = cell(&reg, 1, 0, "steam", 2000, 15000);
    let east_pressure = east.get_gas_pressure().unwrap();
    cells.add(east).unwrap();
    cells.add(cell(&reg, 0, 1, "ice", 10, -100)).unwrap();
    assert_eq!(origin.gas_force(&cells), Some(Force { x: east_pressure, y: 0 }));
    assert_eq!(east_pressure, 390896);
    let lonely = cell(&reg, 50, 50, "steam", 1000, 15000);
    assert_eq!(lonely.gas_force(&cells), Some(Force { x: 0, y: 0 }));
    let solid = cell(&reg, 2, 0, "ice", 10, -100);
    assert_eq!(solid.gas_force(&cells), None);
}

#[test]
fn positions_and_offsets() {
    let p = Position::new(0, 0);
    let n = p.neighbour();
    assert_eq!(n[0], Position::new(0, -1));
    assert_eq!(n[3], Position::new(1, 0));
    assert_eq!(n[7], Position::new(1, 1));
    let with = p.neighbour_with_offset();
    assert_eq!(with[6], (Position::new(-1, 1), Offset { x: -1, y: 1 }));
    assert_eq!(Position::new(3, -4).offset_from_zero(), Offset { x: 3, y: -4 });
    assert_eq!(Position::new(i32::MAX, 0).shifted(Offset { x: 1, y: 0 }), None);
    assert_eq!(Position::new(3, 4).squared_distance(&Position::new(0, 0)), 25);
}

#[test]
fn uid_counter() {
    let mut counter = UidCounter::new();
    assert_eq!(UID::new(&mut counter), UID { id: 0 });
    assert_eq!(UID::new(&mut counter), UID { id: 1 });
    assert_eq!(UID::peek(&counter), 2);
    UID::set(&mut counter, 40);
    assert_eq!(UID::new(&mut counter).id, 40);
}

fn mass_at(cells: &Cells, x: i32, y: i32) -> Option<u64> {
    let h = cells.get_by_position(Position::new(x, y)).unwrap();
    let g = h.acquire_read();
    let m = g.borrow().get_material().mass();
    g.release_read();
    m
}

#[test]
fn flow_moves_mass_toward_lower_pressure() {
    let reg = registry();
    let mut a = cell(&reg, 0, 0, "steam", 8000, 15000);
    let mut b = cell(&reg, 1, 0, "steam", 1000, 12000);
    a.flow_with(&mut b, &reg);
    assert_eq!(a.get_material().mass(), Some(7000));
    assert_eq!(b.get_material().mass(), Some(2000));
    // (1000 · 120 °C + 1000 · 150 °C) / 2000
    assert_eq!(b.get_material().temperature(), Some(13500));
}

#[test]
fn flow_needs_the_same_gas_on_both_sides() {
    let reg = registry();
    let mut a = cell(&reg, 0, 0, "steam", 8000, 15000);
    let mut b = cell(&reg, 1, 0, "ice", 1000, -500);
    a.flow_with(&mut b, &reg);
    assert_eq!(a.get_material().mass(), Some(8000));
    assert_eq!(b.get_material().mass(), Some(1000));
}

#[test]
fn transfer_keeps_total_mass() {
    let reg = registry();
    let mut a = cellsim::cell::Material::new_unchecked(&reg, "water", 500, 2000).unwrap();
    let mut b = cellsim::cell::Material::new_unchecked(&reg, "water", 1500, 6000).unwrap();
    a.transfer(&mut b, &reg, 500);
    assert_eq!(a.mass(), None);
    assert_eq!(b.mass(), Some(2000));
    assert_eq!(b.temperature(), Some(5000));
}

#[test]
fn update_conserves_mass() {
    let reg = registry();
    let mut cells = Cells::new(&reg);
    cells.add(cell(&reg, 0, 0, "steam", 8000, 15000)).unwrap();
    cells.add(cell(&reg, 1, 0, "steam", 800, 15000)).unwrap();
    cells.add(cell(&reg, 0, 1, "steam", 80, 15000)).unwrap();
    cells.add(cell(&reg, 5, 5, "steam", 80, 15000)).unwrap();
    cells.update(&reg);
    // (0,0) passes 1000 down, to 1080, then 875 right, to 1675.
    assert_eq!(mass_at(&cells, 0, 0), Some(6125));
    // (1,0) then passes 209 left-down to (0,1).
    assert_eq!(mass_at(&cells, 1, 0), Some(1466));
    assert_eq!(mass_at(&cells, 0, 1), Some(1289));
    assert_eq!(mass_at(&cells, 5, 5), Some(80));
    let total: u64 = [(0, 0), (1, 0), (0, 1), (5, 5)].iter().map(|&(x, y)| mass_at(&cells, x, y).unwrap()).sum();
    assert_eq!(total, 8960);
}
