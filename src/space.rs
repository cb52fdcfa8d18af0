use std::collections::BTreeMap;
use vstd::prelude::*;
use vstd::rwlock::RwLockPredicate;

use crate::cell::{state_wf, Cell, CellID};
use crate::material::{MaterialTy, MaterialView, Registry, PRESSURE_LIMIT};
use crate::pool::{Pool, Pooling};
use crate::pos::{direction, fits_shift, sq_dist, Offset, Position};

verus! {

broadcast use vstd::laws_cmp::group_laws_cmp;

/// The identifier and position that a cell was added under.
pub struct CellPin {
    pub id: CellID,
    pub pos: Position,
}

/// What a space's lock keeps true of each of its cells: it keeps the
/// identifier and position it was added under, and it is normalised
/// against the space's catalog.
pub struct CellLock {
    pub pin: CellPin,
    pub catalog: Seq<MaterialView>,
    pub void: MaterialTy,
}

impl RwLockPredicate<Cell> for CellLock {
    open spec fn inv(self, c: Cell) -> bool {
        &&& c.id_spec() == self.pin.id
        &&& c.pos_spec() == self.pin.pos
        &&& state_wf(self.catalog, self.void, c.material_spec()@)
    }
}

/// A shared, individually locked cell of a [`Cells`] space.
pub type CellHandle = Pooling<Cell, CellLock>;

pub open spec fn pin_of(e: (Position, CellID)) -> CellPin {
    CellPin { id: e.1, pos: e.0 }
}

pub open spec fn pos_key(p: Position) -> (i32, i32) {
    (p.x, p.y)
}

/// Some entry has identifier `id`.
pub open spec fn holds_id(e: Seq<(Position, CellID)>, id: CellID) -> bool {
    exists|i: int| 0 <= i < e.len() && e[i].1 == id
}

/// Some entry stands at `p`.
pub open spec fn holds_pos(e: Seq<(Position, CellID)>, p: Position) -> bool {
    exists|i: int| 0 <= i < e.len() && e[i].0 == p
}

/// The space's three structures agree: every entry has exactly one place in
/// the position map and one in the pool, under the same identifier, and
/// neither holds anything else.
pub open spec fn index_wf(
    e: Seq<(Position, CellID)>,
    by_pos: Map<(i32, i32), usize>,
    pool: Map<usize, CellLock>,
    next_id: usize,
    catalog: Seq<MaterialView>,
    void: MaterialTy,
) -> bool {
    &&& forall|i: int, j: int|
        0 <= i < e.len() && 0 <= j < e.len() && i != j ==> #[trigger] e[i].0 != #[trigger] e[j].0
            && e[i].1 != e[j].1
    &&& forall|i: int|
        0 <= i < e.len() ==> {
            &&& by_pos.contains_key(pos_key((#[trigger] e[i]).0))
            &&& by_pos[pos_key(e[i].0)] == e[i].1.0
            &&& pool.contains_key(e[i].1.0)
            &&& pool[e[i].1.0].pin == pin_of(e[i])
            &&& pool[e[i].1.0].catalog == catalog
            &&& pool[e[i].1.0].void == void
            &&& e[i].1.0 < next_id
        }
    &&& forall|k: (i32, i32)|
        #[trigger] by_pos.contains_key(k) ==> exists|i: int| 0 <= i < e.len() && pos_key(e[i].0) == k
    &&& forall|k: usize|
        #[trigger] pool.contains_key(k) ==> exists|i: int| 0 <= i < e.len() && e[i].1.0 == k
}

/// No two entries share a position or an identifier.
pub open spec fn distinct(e: Seq<(Position, CellID)>) -> bool {
    forall|i: int, j: int|
        0 <= i < e.len() && 0 <= j < e.len() && i != j ==> #[trigger] e[i].0 != #[trigger] e[j].0
            && e[i].1 != e[j].1
}

/// `pin` is that of an entry whose squared distance from `pos` is `d`.
pub open spec fn is_entry_at(e: Seq<(Position, CellID)>, pin: CellPin, d: int, pos: Position) -> bool {
    exists|i: int| 0 <= i < e.len() && pin == pin_of(e[i]) && d == sq_dist(e[i].0, pos)
}

/// `perm` lists each of `0 .. n` exactly once.
pub open spec fn is_permutation(perm: Seq<int>, n: int) -> bool {
    &&& perm.len() == n
    &&& forall|k: int| 0 <= k < perm.len() ==> 0 <= #[trigger] perm[k] < n
    &&& forall|k: int, l: int| 0 <= k < l < perm.len() ==> #[trigger] perm[k] != #[trigger] perm[l]
}

/// Entry `i` is nearest to `p`, and no earlier entry is as near.
pub open spec fn is_nearest(e: Seq<(Position, CellID)>, p: Position, i: int) -> bool {
    &&& 0 <= i < e.len()
    &&& forall|j: int| 0 <= j < e.len() ==> sq_dist(e[i].0, p) <= sq_dist(#[trigger] e[j].0, p)
    &&& forall|j: int| 0 <= j < i ==> sq_dist(e[i].0, p) < sq_dist(#[trigger] e[j].0, p)
}

/// Only a position itself lies at distance zero from it.
proof fn lemma_sq_dist_zero(a: Position, b: Position)
    requires
        sq_dist(a, b) <= 0,
    ensures
        a == b,
{
    let dx = a.x - b.x;
    let dy = a.y - b.y;
    assert(dx * dx >= 0 && dy * dy >= 0) by (nonlinear_arith);
    assert(dx == 0) by (nonlinear_arith)
        requires dx * dx <= 0;
    assert(dy == 0) by (nonlinear_arith)
        requires dy * dy <= 0;
}


/// `p + d`, where it is representable.
pub open spec fn shift_pos(p: Position, d: Offset) -> Position {
    Position { x: (p.x + d.x) as i32, y: (p.y + d.y) as i32 }
}

/// The entry standing at `q`, where there is one.
pub open spec fn pin_at(e: Seq<(Position, CellID)>, q: Position) -> CellPin {
    pin_of(e[choose|i: int| 0 <= i < e.len() && e[i].0 == q])
}

/// Direction `k` from `p` leads to a position where a cell stands.
pub open spec fn occupied(e: Seq<(Position, CellID)>, p: Position, k: int) -> bool {
    fits_shift(p, direction(k)) && holds_pos(e, shift_pos(p, direction(k)))
}

/// The cells around `p` among the first `k` directions, in direction order.
pub open spec fn neighbours_upto(e: Seq<(Position, CellID)>, p: Position, k: int) -> Seq<CellPin>
    decreases k,
{
    if k <= 0 {
        Seq::empty()
    } else if occupied(e, p, k - 1) {
        neighbours_upto(e, p, k - 1).push(pin_at(e, shift_pos(p, direction(k - 1))))
    } else {
        neighbours_upto(e, p, k - 1)
    }
}

/// The x component of the sum of `pressure * direction` over the first `k`
/// directions, a missing pressure counting nothing.
pub open spec fn force_x(ps: Seq<Option<i128>>, k: int) -> int
    decreases k,
{
    if k <= 0 {
        0
    } else {
        force_x(ps, k - 1) + match ps[k - 1] {
            Some(p) => p * direction(k - 1).x,
            None => 0,
        }
    }
}

/// The y component, as [`force_x`].
pub open spec fn force_y(ps: Seq<Option<i128>>, k: int) -> int
    decreases k,
{
    if k <= 0 {
        0
    } else {
        force_y(ps, k - 1) + match ps[k - 1] {
            Some(p) => p * direction(k - 1).y,
            None => 0,
        }
    }
}

/// A pressure-driven force on a cell.
#[derive(Debug, Clone, Copy, PartialEq, Eq, Structural)]
pub struct Force {
    pub x: i128,
    pub y: i128,
}

/// Sums `pressure * direction` over the eight directions: `pressures[k]` is
/// what the neighbour in direction `k` (see [`direction`]) reports, `None`
/// where there is no gas neighbour there.
pub fn gradient(pressures: &Vec<Option<i128>>) -> (r: Force)
    requires
        pressures@.len() == 8,
        forall|k: int| 0 <= k < 8 ==> crate::cell::pressure_in_range(#[trigger] pressures@[k]),
    ensures
        r.x == force_x(pressures@, 8),
        r.y == force_y(pressures@, 8),
{
    let dirs = Offset::directions();
    let mut x: i128 = 0;
    let mut y: i128 = 0;
    let mut k: usize = 0;
    while k < 8
        invariant
            k <= 8,
            pressures@.len() == 8,
            forall|j: int| 0 <= j < 8 ==> crate::cell::pressure_in_range(#[trigger] pressures@[j]),
            forall|j: int| 0 <= j < 8 ==> #[trigger] dirs@[j] == direction(j),
            x == force_x(pressures@, k as int),
            y == force_y(pressures@, k as int),
            -(k * PRESSURE_LIMIT) <= x <= k * PRESSURE_LIMIT,
            -(k * PRESSURE_LIMIT) <= y <= k * PRESSURE_LIMIT,
        decreases 8 - k,
    {
        let d = dirs[k];
        assert(d == direction(k as int));
        assert(-1 <= d.x <= 1 && -1 <= d.y <= 1);
        proof {
            if let Some(p) = pressures@[k as int] {
                assert(p * d.x == if d.x > 0 { p as int } else if d.x < 0 { -p } else { 0 }) by (nonlinear_arith)
                    requires -1 <= d.x <= 1;
                assert(p * d.y == if d.y > 0 { p as int } else if d.y < 0 { -p } else { 0 }) by (nonlinear_arith)
                    requires -1 <= d.y <= 1;
            }
        }
        if let Some(p) = pressures[k] {
            if d.x > 0 {
                x = x + p;
            } else if d.x < 0 {
                x = x - p;
            }
            if d.y > 0 {
                y = y + p;
            } else if d.y < 0 {
                y = y - p;
            }
        }
        k += 1;
    }
    Force { x, y }
}

/// Why a cell could not join a space.
#[derive(Debug, Clone, Copy, PartialEq, Eq, Structural)]
pub enum SpaceError {
    /// Another cell stands at that position.
    Occupied,
    /// Every identifier has been handed out.
    IdsExhausted,
}

/// The cell space: a pool of individually locked cells, an exact position
/// map, and the list of cells in insertion order that proximity queries
/// scan. All three change together, under `&mut self`.
pub struct Cells {
    cells: Pool<usize, Cell, CellLock>,
    pos_idx: BTreeMap<(i32, i32), usize>,
    order: Vec<(Position, CellID)>,
    next_id: usize,
    catalog: Ghost<(Seq<MaterialView>, MaterialTy)>,
}

impl Cells {
    #[verifier::type_invariant]
    spec fn inv(&self) -> bool {
        index_wf(self.order@, self.pos_idx@, self.cells@, self.next_id, self.catalog@.0, self.catalog@.1)
    }

    /// The catalog that the space's cells are normalised against.
    pub closed spec fn catalog(&self) -> Seq<MaterialView> {
        self.catalog@.0
    }

    /// The void material of that catalog.
    pub closed spec fn void_ty(&self) -> MaterialTy {
        self.catalog@.1
    }

    /// The cells, as (position, identifier), in the order they were added.
    pub closed spec fn entries(&self) -> Seq<(Position, CellID)> {
        self.order@
    }

    /// Each identifier in use with the handle the pool stores for it.
    pub closed spec fn handles(&self) -> Map<usize, CellHandle> {
        self.cells.handles()
    }

    /// The identifier that the next added cell receives.
    pub closed spec fn next_id_spec(&self) -> usize {
        self.next_id
    }

    /// An empty space whose cells belong to the catalog `reg`.
    pub fn new(reg: &Registry) -> (r: Cells)
        ensures
            r.entries() == Seq::<(Position, CellID)>::empty(),
            r.next_id_spec() == 0,
            r.catalog() == reg@,
            r.void_ty() == reg.void_ty(),
    {
        let cells = Pool::new();
        let pos_idx = BTreeMap::new();
        let order = Vec::new();
        Cells { cells, pos_idx, order, next_id: 0, catalog: Ghost((reg@, reg.void_ty())) }
    }

    pub fn len(&self) -> (r: usize)
        ensures
            r == self.entries().len(),
            distinct(self.entries()),
    {
        proof {
            use_type_invariant(self);
        }
        self.order.len()
    }

    /// The identifier that the next added cell receives.
    pub fn next_id(&self) -> (r: usize)
        ensures
            r == self.next_id_spec(),
    {
        self.next_id
    }

    /// Adds `value` under a fresh identifier, updating the pool and both
    /// indices in one step. Fails, changing nothing, where a cell already
    /// stands at its position, or where identifiers have run out.
    pub fn add(&mut self, value: Cell) -> (r: Result<CellID, SpaceError>)
        requires
            state_wf(old(self).catalog(), old(self).void_ty(), value.material_spec()@),
        ensures
            match r {
                Ok(id) => {
                    &&& !holds_pos(old(self).entries(), value.pos_spec())
                    &&& id.0 == old(self).next_id_spec()
                    &&& !holds_id(old(self).entries(), id)
                    &&& final(self).entries() == old(self).entries().push((value.pos_spec(), id))
                    &&& final(self).next_id_spec() == old(self).next_id_spec() + 1
                    &&& distinct(final(self).entries())
                    &&& final(self).catalog() == old(self).catalog()
                    &&& final(self).void_ty() == old(self).void_ty()
                },
                Err(e) => {
                    &&& final(self).entries() == old(self).entries()
                    &&& final(self).next_id_spec() == old(self).next_id_spec()
                    &&& final(self).catalog() == old(self).catalog()
                    &&& final(self).void_ty() == old(self).void_ty()
                    &&& e == SpaceError::Occupied <==> holds_pos(old(self).entries(), value.pos_spec())
                    &&& e == SpaceError::IdsExhausted ==> old(self).next_id_spec() == usize::MAX
                },
            },
    {
        proof {
            use_type_invariant(&*self);
        }
        let pos = value.pos();
        let key = (pos.x, pos.y);
        if self.pos_idx.contains_key(&key) {
            proof {
                let i = choose|i: int| 0 <= i < self.order@.len() && pos_key(self.order@[i].0) == key;
                assert(self.order@[i].0 == pos);
            }
            return Err(SpaceError::Occupied);
        }
        assert(!holds_pos(self.order@, pos)) by {
            if holds_pos(self.order@, pos) {
                let i = choose|i: int| 0 <= i < self.order@.len() && self.order@[i].0 == pos;
                assert(self.pos_idx@.contains_key(pos_key(self.order@[i].0)));
            }
        }
        if self.next_id == usize::MAX {
            return Err(SpaceError::IdsExhausted);
        }
        let raw = self.next_id;
        let id = CellID::new(raw);
        assert(!holds_id(self.order@, id)) by {
            if holds_id(self.order@, id) {
                let i = choose|i: int| 0 <= i < self.order@.len() && self.order@[i].1 == id;
                assert(self.order@[i].1.0 < self.next_id);
            }
        }
        let cell = value.with_id(id);
        let ghost old_order = self.order@;
        let ghost old_cells = self.cells@;
        let ghost old_pos = self.pos_idx@;
        let ghost pin = CellLock { pin: CellPin { id, pos }, catalog: self.catalog@.0, void: self.catalog@.1 };
        assert(!old_cells.contains_key(raw)) by {
            if old_cells.contains_key(raw) {
                let i = choose|i: int| 0 <= i < old_order.len() && old_order[i].1.0 == raw;
                assert(old_order[i].1.0 < self.next_id);
            }
        }
        let mut next = Cells {
            cells: Pool::new(),
            pos_idx: BTreeMap::new(),
            order: Vec::new(),
            next_id: 0,
            catalog: self.catalog,
        };
        std::mem::swap(self, &mut next);
        let Cells { mut cells, mut pos_idx, mut order, next_id, catalog } = next;
        cells.insert(raw, cell, Ghost(pin));
        pos_idx.insert(key, raw);
        order.push((pos, id));
        let ghost e = order@;
        assert(e == old_order.push((pos, id)));
        assert forall|k: (i32, i32)| #[trigger] pos_idx@.contains_key(k) implies exists|i: int|
            0 <= i < e.len() && pos_key(e[i].0) == k by {
            if k == key {
                assert(pos_key(e[old_order.len() as int].0) == k);
            } else {
                assert(old_pos.contains_key(k));
                let i = choose|i: int| 0 <= i < old_order.len() && pos_key(old_order[i].0) == k;
                assert(pos_key(e[i].0) == k);
            }
        }
        assert forall|k: usize| #[trigger] cells@.contains_key(k) implies exists|i: int|
            0 <= i < e.len() && e[i].1.0 == k by {
            if k == raw {
                assert(e[old_order.len() as int].1.0 == k);
            } else {
                assert(old_cells.contains_key(k));
                let i = choose|i: int| 0 <= i < old_order.len() && old_order[i].1.0 == k;
                assert(e[i].1.0 == k);
            }
        }
        assert forall|i: int, j: int|
            0 <= i < e.len() && 0 <= j < e.len() && i != j implies #[trigger] e[i].0 != #[trigger] e[j].0
                && e[i].1 != e[j].1 by {
            if i == old_order.len() {
                assert(old_pos.contains_key(pos_key(old_order[j].0)));
                assert(old_order[j].1.0 < next_id);
            } else if j == old_order.len() {
                assert(old_pos.contains_key(pos_key(old_order[i].0)));
                assert(old_order[i].1.0 < next_id);
            }
        }
        assert forall|i: int| 0 <= i < e.len() implies {
            &&& pos_idx@.contains_key(pos_key(#[trigger] e[i].0))
            &&& pos_idx@[pos_key(e[i].0)] == e[i].1.0
            &&& cells@.contains_key(e[i].1.0)
            &&& cells@[e[i].1.0].pin == pin_of(e[i])
            &&& cells@[e[i].1.0].catalog == catalog@.0
            &&& cells@[e[i].1.0].void == catalog@.1
            &&& e[i].1.0 < next_id + 1
        } by {
            if i < old_order.len() {
                assert(old_pos.contains_key(pos_key(old_order[i].0)));
                assert(pos_key(old_order[i].0) != key);
                assert(old_order[i].1.0 != raw);
            }
        }
        *self = Cells { cells, pos_idx, order, next_id: next_id + 1, catalog };
        Ok(id)
    }

    /// The cell with identifier `id`.
    pub fn get_by_id(&self, id: CellID) -> (r: Option<CellHandle>)
        ensures
            match r {
                Some(h) => (exists|i: int|
                    0 <= i < self.entries().len() && self.entries()[i].1 == id && h.pred().pin == pin_of(
                        self.entries()[i],
                    ) && h.pred().catalog == self.catalog() && h.pred().void == self.void_ty())
                    && self.handles().contains_key(id.0) && h == self.handles()[id.0],
                None => !holds_id(self.entries(), id) && !self.handles().contains_key(id.0),
            },
    {
        proof {
            use_type_invariant(self);
        }
        let r = self.cells.get(&id.0);
        proof {
            match &r {
                Some(h) => {
                    let i = choose|i: int| 0 <= i < self.order@.len() && self.order@[i].1.0 == id.0;
                    assert(self.order@[i].1 == id);
                    assert(self.cells@[self.order@[i].1.0].pin == pin_of(self.order@[i]));
                    assert(h.pred().pin == pin_of(self.entries()[i]));
                },
                None => {
                    if holds_id(self.order@, id) {
                        let i = choose|i: int| 0 <= i < self.order@.len() && self.order@[i].1 == id;
                        assert(self.cells@.contains_key(self.order@[i].1.0));
                    }
                },
            }
        }
        r
    }

    /// The cell standing exactly at `pos`.
    pub fn get_by_position(&self, pos: Position) -> (r: Option<CellHandle>)
        ensures
            match r {
                Some(h) => exists|i: int|
                    0 <= i < self.entries().len() && self.entries()[i].0 == pos && h.pred().pin == pin_of(
                        self.entries()[i],
                    ) && h.pred().catalog == self.catalog() && h.pred().void == self.void_ty()
                        && h == self.handles()[self.entries()[i].1.0],
                None => !holds_pos(self.entries(), pos),
            },
    {
        proof {
            use_type_invariant(self);
        }
        let key = (pos.x, pos.y);
        match self.pos_idx.get(&key) {
            Some(raw) => {
                let r = self.cells.get(raw);
                proof {
                    assert(self.pos_idx@.contains_key(key) && self.pos_idx@[key] == *raw);
                    let i = choose|i: int| 0 <= i < self.order@.len() && pos_key(self.order@[i].0) == key;
                    assert(self.order@[i].0 == pos);
                    assert(self.order@[i].1.0 == *raw);
                    assert(self.cells@.contains_key(self.order@[i].1.0));
                    assert(r->0.pred().pin == pin_of(self.entries()[i]));
                }
                r
            },
            None => {
                proof {
                    if holds_pos(self.order@, pos) {
                        let i = choose|i: int| 0 <= i < self.order@.len() && self.order@[i].0 == pos;
                        assert(self.pos_idx@.contains_key(pos_key(self.order@[i].0)));
                    }
                }
                None
            },
        }
    }

    /// The handle of entry `i`.
    fn handle_at(&self, i: usize) -> (r: CellHandle)
        requires
            i < self.entries().len(),
        ensures
            r.pred().pin == pin_of(self.entries()[i as int]),
            r.pred().catalog == self.catalog(),
            r.pred().void == self.void_ty(),
    {
        proof {
            use_type_invariant(self);
        }
        let raw = self.order[i].1.0;
        assert(self.cells@.contains_key(self.order@[i as int].1.0));
        match self.cells.get(&raw) {
            Some(h) => h,
            None => vstd::pervasive::unreached(),
        }
    }

    /// Takes cell `id` out of the pool and both indices in one step,
    /// returning its handle; holders of earlier handles keep them.
    pub fn remove(&mut self, id: CellID) -> (r: Option<CellHandle>)
        ensures
            final(self).next_id_spec() == old(self).next_id_spec(),
            final(self).catalog() == old(self).catalog(),
            final(self).void_ty() == old(self).void_ty(),
            distinct(final(self).entries()),
            match r {
                Some(h) => exists|i: int|
                    0 <= i < old(self).entries().len() && old(self).entries()[i].1 == id && h.pred().pin
                        == pin_of(old(self).entries()[i]) && final(self).entries() == old(
                        self,
                    ).entries().remove(i),
                None => !holds_id(old(self).entries(), id) && final(self).entries() == old(
                    self,
                ).entries(),
            },
    {
        proof {
            use_type_invariant(&*self);
        }
        let i = match self.index_of_id(id) {
            Some(i) => i,
            None => {
                return None;
            },
        };
        let ghost old_order = self.order@;
        let ghost old_cells = self.cells@;
        let ghost old_pos = self.pos_idx@;
        let mut next = Cells {
            cells: Pool::new(),
            pos_idx: BTreeMap::new(),
            order: Vec::new(),
            next_id: 0,
            catalog: self.catalog,
        };
        std::mem::swap(self, &mut next);
        let Cells { mut cells, mut pos_idx, mut order, next_id, catalog } = next;
        let (pos, cid) = order.remove(i);
        let key = (pos.x, pos.y);
        pos_idx.remove(&key);
        let r = cells.remove(&cid.0);
        let ghost e = order@;
        assert(e == old_order.remove(i as int));
        assert(old_order[i as int] == (pos, cid));
        assert(old_cells.contains_key(old_order[i as int].1.0));
        assert forall|a: int, b: int|
            0 <= a < e.len() && 0 <= b < e.len() && a != b implies #[trigger] e[a].0 != #[trigger] e[b].0
                && e[a].1 != e[b].1 by {
            let a0 = if a < i { a } else { a + 1 };
            let b0 = if b < i { b } else { b + 1 };
            assert(e[a] == old_order[a0] && e[b] == old_order[b0]);
            assert(old_order[a0].0 != old_order[b0].0);
        }
        assert forall|j: int| 0 <= j < e.len() implies {
            &&& pos_idx@.contains_key(pos_key((#[trigger] e[j]).0))
            &&& pos_idx@[pos_key(e[j].0)] == e[j].1.0
            &&& cells@.contains_key(e[j].1.0)
            &&& cells@[e[j].1.0].pin == pin_of(e[j])
            &&& cells@[e[j].1.0].catalog == catalog@.0
            &&& cells@[e[j].1.0].void == catalog@.1
            &&& e[j].1.0 < next_id
        } by {
            let j0 = if j < i { j } else { j + 1 };
            assert(e[j] == old_order[j0]);
            assert(old_pos.contains_key(pos_key(old_order[j0].0)));
            assert(old_order[j0].0 != old_order[i as int].0);
            assert(old_order[j0].1 != old_order[i as int].1);
        }
        assert forall|k: (i32, i32)| #[trigger] pos_idx@.contains_key(k) implies exists|j: int|
            0 <= j < e.len() && pos_key(e[j].0) == k by {
            assert(old_pos.contains_key(k) && k != key);
            let j0 = choose|j: int| 0 <= j < old_order.len() && pos_key(old_order[j].0) == k;
            assert(j0 != i);
            let j = if j0 < i { j0 } else { j0 - 1 };
            assert(e[j] == old_order[j0]);
        }
        assert forall|k: usize| #[trigger] cells@.contains_key(k) implies exists|j: int|
            0 <= j < e.len() && e[j].1.0 == k by {
            assert(old_cells.contains_key(k) && k != cid.0);
            let j0 = choose|j: int| 0 <= j < old_order.len() && old_order[j].1.0 == k;
            assert(j0 != i);
            let j = if j0 < i { j0 } else { j0 - 1 };
            assert(e[j] == old_order[j0]);
        }
        *self = Cells { cells, pos_idx, order, next_id, catalog };
        proof {
            assert(old_order[i as int].1 == id);
            assert(r->0.pred().pin == pin_of(old_order[i as int]));
        }
        r
    }

    /// One tick of gas flow over the whole space: for every cell, in the
    /// order the cells were added, and for each of the directions down,
    /// right, left-down and right-down (so that every adjacent pair is met
    /// once), the two cells are locked for writing and
    /// [`Cell::flow_with`] moves mass from the higher to the lower pressure.
    /// Each such step conserves mass, as the last clause of
    /// [`Cell::flow_with`]'s contract states; the tick itself has no
    /// contract on the cells' contents, which lie behind their own locks.
    pub fn update(&self, reg: &Registry)
        requires
            reg@ == self.catalog(),
            reg.void_ty() == self.void_ty(),
    {
        let n = self.order.len();
        let dirs = Offset::directions();
        let forward: [usize; 4] = [1, 3, 6, 7];
        let mut i: usize = 0;
        while i < n
            invariant
                n == self.entries().len(),
                i <= n,
                reg@ == self.catalog(),
                reg.void_ty() == self.void_ty(),
                forall|j: int| 0 <= j < 8 ==> #[trigger] dirs@[j] == direction(j),
                forall|j: int| 0 <= j < 4 ==> #[trigger] forward@[j] < 8,
            decreases n - i,
        {
            let pos = self.pos_at(i);
            let mut f: usize = 0;
            while f < 4
                invariant
                    i < n,
                    n == self.entries().len(),
                    f <= 4,
                    reg@ == self.catalog(),
                    reg.void_ty() == self.void_ty(),
                    forall|j: int| 0 <= j < 8 ==> #[trigger] dirs@[j] == direction(j),
                    forall|j: int| 0 <= j < 4 ==> #[trigger] forward@[j] < 8,
                decreases 4 - f,
            {
                let k = forward[f];
                if let Some(hb) = self.neighbour_at(pos, dirs[k], Ghost(k as int)) {
                    let ha = self.handle_at(i);
                    let (mut a, wa) = ha.acquire_write();
                    let (mut b, wb) = hb.acquire_write();
                    a.flow_with(&mut b, reg);
                    wb.release_write(b);
                    wa.release_write(a);
                }
                f += 1;
            }
            i += 1;
        }
    }

    /// Index of the entry with identifier `id`.
    fn index_of_id(&self, id: CellID) -> (r: Option<usize>)
        ensures
            match r {
                Some(i) => i < self.entries().len() && self.entries()[i as int].1 == id,
                None => !holds_id(self.entries(), id),
            },
    {
        let n = self.order.len();
        let mut i: usize = 0;
        while i < n
            invariant
                n == self.order@.len(),
                i <= n,
                forall|j: int| 0 <= j < i ==> self.order@[j].1 != id,
            decreases n - i,
        {
            if self.order[i].1 == id {
                return Some(i);
            }
            i += 1;
        }
        None
    }

    /// The position of entry `i`.
    fn pos_at(&self, i: usize) -> (r: Position)
        requires
            i < self.entries().len(),
        ensures
            r == self.entries()[i as int].0,
    {
        self.order[i].0
    }

    /// The cell standing in direction `k` from `pos`, if any.
    fn neighbour_at(&self, pos: Position, d: Offset, Ghost(k): Ghost<int>) -> (r: Option<CellHandle>)
        requires
            0 <= k < 8,
            d == direction(k),
        ensures
            match r {
                Some(h) => occupied(self.entries(), pos, k) && h.pred().pin == pin_at(
                    self.entries(),
                    shift_pos(pos, d),
                ) && h.pred().catalog == self.catalog() && h.pred().void == self.void_ty(),
                None => !occupied(self.entries(), pos, k),
            },
    {
        proof {
            use_type_invariant(self);
        }
        match pos.shifted(d) {
            Some(q) => {
                assert(q == shift_pos(pos, d));
                let r = self.get_by_position(q);
                proof {
                    if r is Some {
                        let i = choose|i: int|
                            0 <= i < self.entries().len() && self.entries()[i].0 == q && r->0.pred().pin
                                == pin_of(self.entries()[i]);
                        let j = choose|j: int| 0 <= j < self.order@.len() && self.order@[j].0 == q;
                        if i != j {
                            assert(self.order@[i].0 != self.order@[j].0);
                        }
                    }
                }
                r
            },
            None => None,
        }
    }

    /// The cells on the eight grid positions around cell `id`, in the order
    /// of [`direction`]; `None` where no cell has that identifier.
    pub fn get_neighbour_by_id(&self, id: CellID) -> (r: Option<Vec<CellHandle>>)
        ensures
            match r {
                Some(v) => exists|i: int|
                    0 <= i < self.entries().len() && self.entries()[i].1 == id && {
                        let ns = neighbours_upto(self.entries(), self.entries()[i].0, 8);
                        &&& v@.len() == ns.len()
                        &&& forall|k: int| 0 <= k < v@.len() ==> (#[trigger] v@[k]).pred().pin == ns[k]
                    },
                None => !holds_id(self.entries(), id),
            },
    {
        let i = match self.index_of_id(id) {
            Some(i) => i,
            None => {
                return None;
            },
        };
        let pos = self.pos_at(i);
        let dirs = Offset::directions();
        let mut out: Vec<CellHandle> = Vec::new();
        let mut k: usize = 0;
        while k < 8
            invariant
                k <= 8,
                forall|j: int| 0 <= j < 8 ==> #[trigger] dirs@[j] == direction(j),
                out@.len() == neighbours_upto(self.entries(), pos, k as int).len(),
                forall|j: int|
                    0 <= j < out@.len() ==> (#[trigger] out@[j]).pred().pin == neighbours_upto(
                        self.entries(),
                        pos,
                        k as int,
                    )[j],
            decreases 8 - k,
        {
            let d = dirs[k];
            if let Some(h) = self.neighbour_at(pos, d, Ghost(k as int)) {
                out.push(h);
            }
            k += 1;
        }
        assert(self.entries()[i as int].1 == id);
        Some(out)
    }

    /// Index of the entry nearest to `pos`, the earliest added among equals.
    fn nearest_index(&self, pos: Position) -> (r: Option<usize>)
        ensures
            match r {
                Some(i) => is_nearest(self.entries(), pos, i as int),
                None => self.entries().len() == 0,
            },
    {
        let n = self.order.len();
        if n == 0 {
            return None;
        }
        let mut best: usize = 0;
        let mut best_d: u128 = self.order[0].0.squared_distance(&pos);
        let mut i: usize = 1;
        while i < n
            invariant
                n == self.order@.len(),
                1 <= i <= n,
                best < i,
                best_d == sq_dist(self.order@[best as int].0, pos),
                forall|j: int| 0 <= j < i ==> best_d <= sq_dist(#[trigger] self.order@[j].0, pos),
                forall|j: int| 0 <= j < best ==> best_d < sq_dist(#[trigger] self.order@[j].0, pos),
            decreases n - i,
        {
            let d = self.order[i].0.squared_distance(&pos);
            if d < best_d {
                best = i;
                best_d = d;
            }
            i += 1;
        }
        Some(best)
    }

    /// The cell nearest to `pos` by squared Euclidean distance, the earliest
    /// added among equally near ones; `None` only for an empty space.
    pub fn get_nearest_by_position(&self, pos: Position) -> (r: Option<CellHandle>)
        ensures
            match r {
                Some(h) => exists|i: int|
                    is_nearest(self.entries(), pos, i) && h.pred().pin == pin_of(self.entries()[i]),
                None => self.entries().len() == 0,
            },
    {
        match self.nearest_index(pos) {
            Some(i) => Some(self.handle_at(i)),
            None => None,
        }
    }

    /// The cell nearest to the position of cell `id`: the cell itself, as
    /// positions are distinct; `None` where no cell has that identifier.
    pub fn get_nearest_by_id(&self, id: CellID) -> (r: Option<CellHandle>)
        ensures
            match r {
                Some(h) => exists|i: int|
                    0 <= i < self.entries().len() && self.entries()[i].1 == id && is_nearest(
                        self.entries(),
                        self.entries()[i].0,
                        i,
                    ) && h.pred().pin == pin_of(self.entries()[i]),
                None => !holds_id(self.entries(), id),
            },
    {
        proof {
            use_type_invariant(self);
        }
        let n = self.order.len();
        let mut i: usize = 0;
        while i < n
            invariant
                n == self.order@.len(),
                i <= n,
                forall|j: int| 0 <= j < i ==> self.order@[j].1 != id,
            decreases n - i,
        {
            if self.order[i].1 == id {
                let pos = self.order[i].0;
                let j = self.nearest_index(pos);
                proof {
                    use_type_invariant(self);
                    let j = j->0;
                    let dx = pos.x - pos.x;
                    let dy = pos.y - pos.y;
                    assert(dx * dx + dy * dy == 0) by (nonlinear_arith)
                        requires dx == 0, dy == 0;
                    assert(sq_dist(self.order@[i as int].0, pos) == 0);
                    if j != i {
                        lemma_sq_dist_zero(self.order@[j as int].0, pos);
                        assert(self.order@[j as int].0 != self.order@[i as int].0);
                    }
                }
                return Some(self.handle_at(i));
            }
            i += 1;
        }
        None
    }

    /// Every cell with its squared distance from `pos` whose squared distance
    /// is at most `radius * radius`, in the order the cells were added.
    pub fn iter_within_range(&self, pos: Position, radius: u64) -> (r: Vec<(u128, CellHandle)>)
        ensures
            r@.len() == self.entries().filter(|e: (Position, CellID)| sq_dist(e.0, pos) <= radius * radius).len(),
            forall|k: int|
                0 <= k < r@.len() ==> {
                    let e = self.entries().filter(
                        |e: (Position, CellID)| sq_dist(e.0, pos) <= radius * radius,
                    )[k];
                    &&& (#[trigger] r@[k]).1.pred().pin == pin_of(e)
                    &&& r@[k].0 == sq_dist(e.0, pos)
                },
            forall|k: int| 0 <= k < r@.len() ==> (#[trigger] r@[k]).0 <= radius * radius,
            forall|k: int|
                0 <= k < r@.len() ==> is_entry_at(self.entries(), (#[trigger] r@[k]).1.pred().pin, r@[k].0 as int, pos),
            forall|i: int|
                0 <= i < self.entries().len() && sq_dist(#[trigger] self.entries()[i].0, pos) <= radius
                    * radius ==> exists|k: int|
                    0 <= k < r@.len() && (#[trigger] r@[k]).1.pred().pin == pin_of(self.entries()[i]),
    {
        let ghost f = |e: (Position, CellID)| sq_dist(e.0, pos) <= radius * radius;
        assert(radius * radius <= 0xffff_ffff_ffff_ffffu128 * 0xffff_ffff_ffff_ffffu128) by (nonlinear_arith)
            requires radius <= 0xffff_ffff_ffff_ffffu128;
        let r2: u128 = radius as u128 * radius as u128;
        let mut out: Vec<(u128, CellHandle)> = Vec::new();
        let n = self.order.len();
        let mut i: usize = 0;
        assert(self.order@.subrange(0, 0) =~= Seq::<(Position, CellID)>::empty());
        while i < n
            invariant
                n == self.order@.len(),
                i <= n,
                r2 == radius * radius,
                f == (|e: (Position, CellID)| sq_dist(e.0, pos) <= radius * radius),
                out@.len() == self.order@.subrange(0, i as int).filter(f).len(),
                forall|k: int|
                    0 <= k < out@.len() ==> {
                        let e = self.order@.subrange(0, i as int).filter(f)[k];
                        &&& (#[trigger] out@[k]).1.pred().pin == pin_of(e)
                        &&& out@[k].0 == sq_dist(e.0, pos)
                    },
            decreases n - i,
        {
            let ghost prev = self.order@.subrange(0, i as int).filter(f);
            assert(self.order@.subrange(0, i + 1).drop_last() =~= self.order@.subrange(0, i as int));
            assert(self.order@.subrange(0, i + 1).last() == self.order@[i as int]);
            proof {
                reveal(Seq::filter);
            }
            let d = self.order[i].0.squared_distance(&pos);
            if d <= r2 {
                let h = self.handle_at(i);
                out.push((d, h));
                assert(self.order@.subrange(0, i + 1).filter(f) == prev.push(self.order@[i as int]));
            } else {
                assert(self.order@.subrange(0, i + 1).filter(f) == prev);
            }
            i += 1;
        }
        assert(self.order@.subrange(0, n as int) =~= self.order@);
        assert forall|k: int| 0 <= k < out@.len() implies (#[trigger] out@[k]).0 <= radius * radius by {
            self.order@.lemma_filter_pred(f, k);
        }
        assert forall|k: int| 0 <= k < out@.len() implies is_entry_at(self.entries(), (#[trigger] out@[k]).1.pred().pin, out@[k].0 as int, pos) by {
            let fl = self.order@.filter(f);
            assert(fl.contains(fl[k]));
            self.order@.lemma_filter_contains_rev(f, fl[k]);
            let i = choose|i: int| 0 <= i < self.order@.len() && self.order@[i] == fl[k];
            assert(self.entries()[i] == fl[k]);
            assert(out@[k].1.pred().pin == pin_of(self.entries()[i]));
        }
        assert forall|i: int|
            0 <= i < self.entries().len() && sq_dist(#[trigger] self.entries()[i].0, pos) <= radius * radius implies exists|k: int|
            0 <= k < out@.len() && (#[trigger] out@[k]).1.pred().pin == pin_of(self.entries()[i]) by {
            self.order@.lemma_filter_contains(f, i);
            let fl = self.order@.filter(f);
            let k = choose|k: int| 0 <= k < fl.len() && fl[k] == self.order@[i];
            assert(out@[k].1.pred().pin == pin_of(fl[k]));
        }
        out
    }

    /// Every cell with its squared distance from `pos`, nearest first;
    /// among equally near cells, the earliest added first.
    pub fn iter_near_position(&self, pos: Position) -> (r: Vec<(u128, CellHandle)>)
        ensures
            r@.len() == self.entries().len(),
            exists|perm: Seq<int>|
                {
                    &&& #[trigger] is_permutation(perm, self.entries().len() as int)
                    &&& forall|k: int, l: int|
                        0 <= k < l < r@.len() && (#[trigger] r@[k]).0 == (#[trigger] r@[l]).0 ==> perm[k]
                            < perm[l]
                    &&& forall|k: int|
                        0 <= k < r@.len() ==> {
                            &&& (#[trigger] r@[k]).1.pred().pin == pin_of(self.entries()[perm[k]])
                            &&& r@[k].0 == sq_dist(self.entries()[perm[k]].0, pos)
                        }
                },
            forall|k: int, l: int| 0 <= k < l < r@.len() ==> (#[trigger] r@[k]).0 <= (#[trigger] r@[l]).0,
    {
        let n = self.order.len();
        // (distance, entry index), kept sorted by distance
        let mut sorted: Vec<(u128, usize)> = Vec::new();
        let mut i: usize = 0;
        while i < n
            invariant
                n == self.order@.len(),
                i <= n,
                sorted@.len() == i,
                forall|k: int| 0 <= k < i ==> (#[trigger] sorted@[k]).1 < i,
                forall|k: int, l: int|
                    0 <= k < l < i ==> (#[trigger] sorted@[k]).1 != (#[trigger] sorted@[l]).1,
                forall|k: int|
                    0 <= k < i ==> (#[trigger] sorted@[k]).0 == sq_dist(self.order@[sorted@[k].1 as int].0, pos),
                forall|k: int, l: int| 0 <= k < l < i ==> (#[trigger] sorted@[k]).0 <= (#[trigger] sorted@[l]).0,
                forall|k: int, l: int|
                    0 <= k < l < i && (#[trigger] sorted@[k]).0 == (#[trigger] sorted@[l]).0 ==> sorted@[k].1
                        < sorted@[l].1,
            decreases n - i,
        {
            let d = self.order[i].0.squared_distance(&pos);
            let mut p: usize = 0;
            while p < sorted.len() && sorted[p].0 <= d
                invariant
                    p <= sorted@.len(),
                    forall|k: int| 0 <= k < p ==> (#[trigger] sorted@[k]).0 <= d,
                decreases sorted@.len() - p,
            {
                p += 1;
            }
            let ghost before = sorted@;
            sorted.insert(p, (d, i));
            assert(sorted@ == before.insert(p as int, (d, i)));
            assert forall|k: int, l: int| 0 <= k < l < i + 1 implies (#[trigger] sorted@[k]).0 <= (#[trigger] sorted@[l]).0 by {
                if l < p {
                } else if l == p {
                    assert(sorted@[k] == before[k]);
                } else if k < p {
                    assert(sorted@[l] == before[l - 1]);
                    if p < before.len() {
                        assert(before[p as int].0 > d);
                        assert(before[p as int].0 <= before[l - 1].0);
                    }
                } else if k == p {
                    assert(sorted@[l] == before[l - 1]);
                    assert(before[p as int].0 > d);
                    if l - 1 > p {
                        assert(before[p as int].0 <= before[l - 1].0);
                    }
                } else {
                    assert(sorted@[k] == before[k - 1]);
                    assert(sorted@[l] == before[l - 1]);
                }
            }
            assert forall|k: int, l: int| 0 <= k < l < i + 1 implies (#[trigger] sorted@[k]).1 != (#[trigger] sorted@[l]).1 by {
                let k0 = if k < p { k } else { k - 1 };
                let l0 = if l < p { l } else { l - 1 };
                if k != p && l != p {
                    assert(sorted@[k] == before[k0]);
                    assert(sorted@[l] == before[l0]);
                } else if k == p {
                    assert(sorted@[l] == before[l0]);
                } else {
                    assert(sorted@[k] == before[k0]);
                }
            }
            assert forall|k: int, l: int|
                0 <= k < l < i + 1 && (#[trigger] sorted@[k]).0 == (#[trigger] sorted@[l]).0 implies sorted@[k].1
                    < sorted@[l].1 by {
                let k0 = if k < p { k } else { k - 1 };
                let l0 = if l < p { l } else { l - 1 };
                if k == p {
                    assert(sorted@[l] == before[l0]);
                    assert(before[p as int].0 > d);
                    if l0 > p {
                        assert(before[p as int].0 <= before[l0].0);
                    }
                } else if l == p {
                    assert(sorted@[k] == before[k0]);
                } else {
                    assert(sorted@[k] == before[k0]);
                    assert(sorted@[l] == before[l0]);
                }
            }
            assert forall|k: int| 0 <= k < i + 1 implies (#[trigger] sorted@[k]).1 < i + 1 && sorted@[k].0 == sq_dist(self.order@[sorted@[k].1 as int].0, pos) by {
                if k < p {
                    assert(sorted@[k] == before[k]);
                } else if k > p {
                    assert(sorted@[k] == before[k - 1]);
                }
            }
            i += 1;
        }
        let mut out: Vec<(u128, CellHandle)> = Vec::new();
        let mut k: usize = 0;
        while k < n
            invariant
                n == self.order@.len(),
                sorted@.len() == n,
                k <= n,
                out@.len() == k,
                forall|j: int| 0 <= j < n ==> (#[trigger] sorted@[j]).1 < n,
                forall|j: int|
                    0 <= j < n ==> (#[trigger] sorted@[j]).0 == sq_dist(self.order@[sorted@[j].1 as int].0, pos),
                forall|j: int|
                    0 <= j < k ==> {
                        &&& (#[trigger] out@[j]).1.pred().pin == pin_of(self.order@[sorted@[j].1 as int])
                        &&& out@[j].0 == sorted@[j].0
                    },
            decreases n - k,
        {
            let (d, idx) = sorted[k];
            let h = self.handle_at(idx);
            out.push((d, h));
            k += 1;
        }
        let ghost perm = Seq::new(n as nat, |j: int| sorted@[j].1 as int);
        assert forall|a: int, b: int| 0 <= a < b < perm.len() implies #[trigger] perm[a] != #[trigger] perm[b] by {
            assert(sorted@[a].1 != sorted@[b].1);
        }
        assert forall|a: int, b: int| 0 <= a < b < out@.len() implies (#[trigger] out@[a]).0 <= (#[trigger] out@[b]).0 by {
            assert(sorted@[a].0 <= sorted@[b].0);
        }
        assert(is_permutation(perm, self.entries().len() as int));
        assert forall|a: int, b: int|
            0 <= a < b < out@.len() && (#[trigger] out@[a]).0 == (#[trigger] out@[b]).0 implies perm[a] < perm[b] by {
            assert(sorted@[a].1 < sorted@[b].1);
        }
        assert forall|j: int| 0 <= j < out@.len() implies {
            &&& (#[trigger] out@[j]).1.pred().pin == pin_of(self.entries()[perm[j]])
            &&& out@[j].0 == sq_dist(self.entries()[perm[j]].0, pos)
        } by {
            assert(perm[j] == sorted@[j].1 as int);
        }
        out
    }
}

impl Cell {
    /// The pressure-driven force on this cell: `None` where the cell is no
    /// gas; otherwise the sum of `pressure * direction` over the neighbours
    /// that report a pressure, read each under its own lock. A position
    /// where no cell stands counts nothing.
    pub fn gas_force(&self, cells: &Cells) -> (r: Option<Force>)
        ensures
            self.material_spec()@.pressure is None ==> r is None,
            self.material_spec()@.pressure is Some ==> exists|ps: Seq<Option<i128>>|
                {
                    &&& ps.len() == 8
                    &&& forall|k: int|
                        0 <= k < 8 && !occupied(cells.entries(), self.pos_spec(), k) ==> (
                        #[trigger] ps[k]) is None
                    &&& r == Some(Force { x: force_x(ps, 8) as i128, y: force_y(ps, 8) as i128 })
                },
    {
        if !self.is_gas() {
            return None;
        }
        let pos = self.pos();
        let dirs = Offset::directions();
        let mut pressures: Vec<Option<i128>> = Vec::new();
        let mut k: usize = 0;
        while k < 8
            invariant
                k <= 8,
                forall|j: int| 0 <= j < 8 ==> #[trigger] dirs@[j] == direction(j),
                pressures@.len() == k,
                pos == self.pos_spec(),
                forall|j: int| 0 <= j < k ==> crate::cell::pressure_in_range(#[trigger] pressures@[j]),
                forall|j: int|
                    0 <= j < k && !occupied(cells.entries(), pos, j) ==> (
                    #[trigger] pressures@[j]) is None,
            decreases 8 - k,
        {
            let d = dirs[k];
            let p = match cells.neighbour_at(pos, d, Ghost(k as int)) {
                Some(h) => {
                    let g = h.acquire_read();
                    let p = g.borrow().get_gas_pressure();
                    g.release_read();
                    p
                },
                None => None,
            };
            pressures.push(p);
            k += 1;
        }
        let f = gradient(&pressures);
        Some(f)
    }
}

} // verus!
