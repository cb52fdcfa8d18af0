use vstd::arithmetic::div_mod::{lemma_div_is_ordered, lemma_div_multiples_vanish};
use vstd::prelude::*;

use crate::material::{
    catalog_wf, div_toward_zero, pressure_of, transition, MaterialTy, MaterialView, Registry,
    PRESSURE_LIMIT,
};
use crate::pos::Position;

verus! {

/// The volume of a cell, in cubic metres.
pub const VOLUME: u32 = 1;

/// The identifier of a cell within its space.
#[derive(Debug, Clone, Copy, PartialEq, Eq, Structural, PartialOrd, Ord, Hash)]
pub struct CellID(pub usize);

impl CellID {
    pub fn new(value: usize) -> (r: Self)
        ensures
            r.0 == value,
    {
        CellID(value)
    }

    pub fn value(&self) -> (r: usize)
        ensures
            r == self.0,
    {
        self.0
    }
}

/// What a [`Material`] holds. `mass` and `temperature` are `None` once the
/// mass has run out: the cell then holds the void material and no reading.
pub struct MaterialState {
    pub ty: MaterialTy,
    pub mass: Option<u64>,
    pub temperature: Option<i32>,
    pub pressure: Option<i128>,
}

/// The pressure that `mass` of `ty` at `t` has in a cell.
pub open spec fn cell_pressure(reg: Seq<MaterialView>, ty: MaterialTy, mass: u64, t: i32) -> Option<i128> {
    match pressure_of(reg[ty.slot as int].phase, mass as int, t as int, VOLUME as int) {
        Some(p) => Some(p as i128),
        None => None,
    }
}

/// The empty state: void material, no mass, no reading.
pub open spec fn emptied(void: MaterialTy) -> MaterialState {
    MaterialState { ty: void, mass: None, temperature: None, pressure: None }
}

/// The material reached from `ty` at temperature `t` by following
/// transitions until none applies, taking at most `fuel` of them.
pub open spec fn transition_chain(reg: Seq<MaterialView>, ty: MaterialTy, t: int, fuel: nat) -> MaterialTy
    decreases fuel,
{
    if fuel == 0 {
        ty
    } else {
        match transition(reg[ty.slot as int].phase, t) {
            Some(n) => transition_chain(reg, n, t, (fuel - 1) as nat),
            None => ty,
        }
    }
}

/// The chain of transitions from `ty` at `t` comes to rest within as many
/// steps as the catalog has materials: where it ends, no transition applies.
pub open spec fn chain_ends(reg: Seq<MaterialView>, ty: MaterialTy, t: int) -> bool {
    transition(reg[transition_chain(reg, ty, t, reg.len()).slot as int].phase, t) is None
}

/// The normalisation step that every mutation ends with: a cell whose mass
/// is zero (or already gone) becomes empty; otherwise its material follows
/// transitions at its temperature until none applies (at most as many as
/// the catalog has materials), and its pressure is recomputed from
/// material, mass and temperature.
pub open spec fn settle(reg: Seq<MaterialView>, void: MaterialTy, s: MaterialState) -> MaterialState {
    match (s.mass, s.temperature) {
        (Some(m), Some(t)) => if m == 0 {
            emptied(void)
        } else {
            let ty = transition_chain(reg, s.ty, t as int, reg.len());
            MaterialState {
                ty,
                mass: Some(m),
                temperature: Some(t),
                pressure: cell_pressure(reg, ty, m, t),
            }
        },
        _ => emptied(void),
    }
}

/// A pressure within the range that the ideal gas law reaches here.
pub open spec fn pressure_in_range(p: Option<i128>) -> bool {
    p matches Some(v) ==> -PRESSURE_LIMIT < v < PRESSURE_LIMIT
}

/// A normalised state: the material is in the catalog, pressure agrees with
/// material, mass and temperature, and an empty cell holds void.
pub open spec fn state_wf(reg: Seq<MaterialView>, void: MaterialTy, s: MaterialState) -> bool {
    &&& s.ty.slot < reg.len()
    &&& pressure_in_range(s.pressure)
    &&& match s.mass {
        None => s.temperature is None && s.pressure is None && s.ty == void,
        Some(m) => m > 0 && match s.temperature {
            Some(t) => s.pressure == cell_pressure(reg, s.ty, m, t),
            None => false,
        },
    }
}

/// The mass a state holds; nothing once emptied.
pub open spec fn mass_of(s: MaterialState) -> int {
    match s.mass {
        Some(m) => m as int,
        None => 0,
    }
}

/// The mass-weighted mean of two temperatures, rounded toward zero.
pub open spec fn mixed_temperature(m1: int, t1: int, m2: int, t2: int) -> int {
    div_toward_zero(m1 * t1 + m2 * t2, m1 + m2)
}

/// [`mixed_temperature`] on machine integers; it lies between the two temperatures.
fn mix(m1: u64, t1: i32, m2: u64, t2: i32) -> (r: i32)
    requires
        m1 > 0,
        m1 + m2 <= u64::MAX,
    ensures
        r == mixed_temperature(m1 as int, t1 as int, m2 as int, t2 as int),
{
    assert(-0x1_0000_0000_0000_0000_0000_0000 <= m1 * t1 <= 0x1_0000_0000_0000_0000_0000_0000) by (nonlinear_arith)
        requires 0 <= m1 <= 0x1_0000_0000_0000_0000int, -0x1_0000_0000int <= t1 <= 0x1_0000_0000int;
    assert(-0x1_0000_0000_0000_0000_0000_0000 <= m2 * t2 <= 0x1_0000_0000_0000_0000_0000_0000) by (nonlinear_arith)
        requires 0 <= m2 <= 0x1_0000_0000_0000_0000int, -0x1_0000_0000int <= t2 <= 0x1_0000_0000int;
    let a: i128 = m1 as i128 * t1 as i128;
    let b: i128 = m2 as i128 * t2 as i128;
    let num: i128 = a + b;
    let den: u64 = m1 + m2;
    let q: i128 = if num >= 0 {
        ((num as u128) / (den as u128)) as i128
    } else {
        -(((-num) as u128 / (den as u128)) as i128)
    };
    proof {
        lemma_mix_between(m1 as int, t1 as int, m2 as int, t2 as int);
    }
    q as i32
}

proof fn lemma_mix_between(m1: int, t1: int, m2: int, t2: int)
    requires
        m1 > 0,
        m2 >= 0,
    ensures
        ({
            let q = mixed_temperature(m1, t1, m2, t2);
            &&& (t1 <= t2 ==> t1 <= q <= t2)
            &&& (t2 <= t1 ==> t2 <= q <= t1)
        }),
{
    let lo = if t1 <= t2 { t1 } else { t2 };
    let hi = if t1 <= t2 { t2 } else { t1 };
    let num = m1 * t1 + m2 * t2;
    let den = m1 + m2;
    assert(den * lo <= num <= den * hi) by (nonlinear_arith)
        requires num == m1 * t1 + m2 * t2, den == m1 + m2, m1 > 0, m2 >= 0, lo <= t1 <= hi, lo <= t2 <= hi;
    lemma_div_multiples_vanish(lo, den);
    lemma_div_multiples_vanish(hi, den);
    lemma_div_multiples_vanish(-lo, den);
    lemma_div_multiples_vanish(-hi, den);
    if num >= 0 {
        if hi >= 0 {
            lemma_div_is_ordered(num, den * hi, den);
        } else {
            assert(den * hi < 0) by (nonlinear_arith)
                requires den > 0, hi < 0;
        }
        if lo > 0 {
            lemma_div_is_ordered(den * lo, num, den);
        } else {
            lemma_div_is_ordered(0, num, den);
        }
    } else {
        assert(den * (-lo) == -(den * lo) && den * (-hi) == -(den * hi)) by (nonlinear_arith);
        lemma_div_is_ordered(-num, den * (-lo), den);
        if hi < 0 {
            lemma_div_is_ordered(den * (-hi), -num, den);
        } else {
            lemma_div_is_ordered(0, -num, den);
        }
    }
}

/// The share of a gas's mass that flows, per tick, into an adjacent cell of
/// the same gas at lower pressure: one part in `FLOW_DIVISOR`.
pub const FLOW_DIVISOR: u64 = 8;

/// `src` and `dst` after `amount` of mass moved from `src` to `dst`, see
/// [`Material::transfer`].
pub open spec fn transferred(
    reg: Seq<MaterialView>,
    void: MaterialTy,
    src: MaterialState,
    dst: MaterialState,
    amount: u64,
) -> (MaterialState, MaterialState) {
    (
        settle(reg, void, MaterialState { mass: Some((src.mass->0 - amount) as u64), ..src }),
        settle(
            reg,
            void,
            MaterialState {
                mass: Some((dst.mass->0 + amount) as u64),
                temperature: Some(
                    mixed_temperature(
                        dst.mass->0 as int,
                        dst.temperature->0 as int,
                        amount as int,
                        src.temperature->0 as int,
                    ) as i32,
                ),
                ..dst
            },
        ),
    )
}

/// One tick of gas flow between two adjacent cells: where both hold the same
/// gas, the one at higher pressure passes `1 / FLOW_DIVISOR` of its mass to
/// the other (unless the receiver's mass would overflow); otherwise nothing
/// moves.
pub open spec fn flow_result(reg: Seq<MaterialView>, void: MaterialTy, a: MaterialState, b: MaterialState) -> (
    MaterialState,
    MaterialState,
) {
    if a.ty == b.ty && a.pressure is Some && b.pressure is Some {
        if a.pressure->0 > b.pressure->0 && b.mass->0 + a.mass->0 / FLOW_DIVISOR <= u64::MAX {
            transferred(reg, void, a, b, (a.mass->0 / FLOW_DIVISOR) as u64)
        } else if b.pressure->0 > a.pressure->0 && a.mass->0 + b.mass->0 / FLOW_DIVISOR <= u64::MAX {
            let (nb, na) = transferred(reg, void, b, a, (b.mass->0 / FLOW_DIVISOR) as u64);
            (na, nb)
        } else {
            (a, b)
        }
    } else {
        (a, b)
    }
}

/// The physical content of a cell: material, mass (milligrams), temperature
/// (hundredths of a degree Celsius) and, for a gas, pressure (millipascal).
#[derive(Debug, Clone)]
pub struct Material {
    ty: MaterialTy,
    mass: Option<u64>,
    temperature: Option<i32>,
    pressure: Option<i128>,
}

impl Material {
    pub closed spec fn view(&self) -> MaterialState {
        MaterialState {
            ty: self.ty,
            mass: self.mass,
            temperature: self.temperature,
            pressure: self.pressure,
        }
    }

    pub open spec fn wf(&self, reg: &Registry) -> bool {
        state_wf(reg@, reg.void_ty(), self@)
    }

    /// A material of the kind called `type_hint`, normalised at once; fails
    /// where the catalog has no such material.
    pub fn new_unchecked(reg: &Registry, type_hint: &str, mass: u64, temperature: i32) -> (r: Result<Self, CellError>)
        ensures
            match r {
                Ok(m) => {
                    &&& exists|i: int| 0 <= i < reg@.len() && reg@[i].name == type_hint@
                    &&& m@ == settle(
                        reg@,
                        reg.void_ty(),
                        MaterialState {
                            ty: MaterialTy::get_spec(reg, type_hint@),
                            mass: Some(mass),
                            temperature: Some(temperature),
                            pressure: None,
                        },
                    )
                    &&& m.wf(reg)
                },
                Err(e) => e == CellError::UnknownMaterial && forall|i: int|
                    0 <= i < reg@.len() ==> reg@[i].name != type_hint@,
            },
    {
        match MaterialTy::get_unchecked(reg, type_hint) {
            Ok(ty) => {
                let mut ret = Material { ty, mass: Some(mass), temperature: Some(temperature), pressure: None };
                ret.update(reg);
                Ok(ret)
            },
            Err(_) => Err(CellError::UnknownMaterial),
        }
    }

    /// Adds `mass`; a negative amount is ignored.
    pub fn stack(&mut self, reg: &Registry, mass: i64)
        requires
            old(self).wf(reg),
            mass >= 0 && old(self)@.mass is Some ==> old(self)@.mass->0 + mass <= u64::MAX,
        ensures
            final(self).wf(reg),
            mass < 0 ==> final(self)@ == old(self)@,
            mass >= 0 ==> final(self)@ == settle(
                reg@,
                reg.void_ty(),
                MaterialState {
                    mass: match old(self)@.mass {
                        Some(m) => Some((m + mass) as u64),
                        None => None,
                    },
                    ..old(self)@
                },
            ),
    {
        if mass < 0 {
            return;
        }
        if let Some(m) = self.mass {
            self.mass = Some(m + mass as u64);
        }
        self.update(reg);
    }

    /// Removes `mass` and returns what is left, or fails, changing nothing,
    /// where less than `mass` is there (an empty cell has nothing to give).
    pub fn take(&mut self, reg: &Registry, mass: i64) -> (r: Result<u64, TakeError>)
        requires
            old(self).wf(reg),
            old(self)@.mass is Some ==> old(self)@.mass->0 - mass <= u64::MAX,
        ensures
            final(self).wf(reg),
            match old(self)@.mass {
                Some(m) => if m - mass >= 0 {
                    &&& r == Ok::<u64, TakeError>((m - mass) as u64)
                    &&& final(self)@ == settle(
                        reg@,
                        reg.void_ty(),
                        MaterialState { mass: Some((m - mass) as u64), ..old(self)@ },
                    )
                } else {
                    r == Err::<u64, TakeError>(TakeError::InsufficientMass) && final(self)@ == old(self)@
                },
                None => r == Err::<u64, TakeError>(TakeError::InsufficientMass) && final(self)@ == old(self)@,
            },
    {
        match self.mass {
            Some(m) => {
                let left: i128 = m as i128 - mass as i128;
                if left >= 0 {
                    self.mass = Some(left as u64);
                    self.update(reg);
                    Ok(left as u64)
                } else {
                    Err(TakeError::InsufficientMass)
                }
            },
            None => Err(TakeError::InsufficientMass),
        }
    }

    /// Adds `temperature` (hundredths of a degree, either sign); an empty
    /// cell has no temperature and stays empty.
    pub fn heat(&mut self, reg: &Registry, temperature: i32)
        requires
            old(self).wf(reg),
            old(self)@.temperature is Some ==> i32::MIN <= old(self)@.temperature->0 + temperature
                <= i32::MAX,
        ensures
            final(self).wf(reg),
            final(self)@ == settle(
                reg@,
                reg.void_ty(),
                MaterialState {
                    temperature: match old(self)@.temperature {
                        Some(t) => Some((t + temperature) as i32),
                        None => None,
                    },
                    ..old(self)@
                },
            ),
    {
        if let Some(t) = self.temperature {
            self.temperature = Some(t + temperature);
        }
        self.update(reg);
    }

    /// Re-establishes the cell's rules, see [`settle`].
    pub fn update(&mut self, reg: &Registry)
        requires
            old(self)@.ty.slot < reg@.len(),
        ensures
            final(self)@ == settle(reg@, reg.void_ty(), old(self)@),
            final(self).wf(reg),
    {
        let void = reg.void();
        match (self.mass, self.temperature) {
            (Some(m), Some(t)) => {
                if m == 0 {
                    self.ty = void;
                    self.mass = None;
                    self.temperature = None;
                    self.pressure = None;
                } else {
                    let ghost start = self.ty;
                    let n = reg.len();
                    let mut cur = self.ty;
                    let mut moving = true;
                    let mut k: usize = 0;
                    while moving && k < n
                        invariant
                            k <= n,
                            n == reg@.len(),
                            cur.slot < reg@.len(),
                            transition_chain(reg@, start, t as int, n as nat) == if moving {
                                transition_chain(reg@, cur, t as int, (n - k) as nat)
                            } else {
                                cur
                            },
                        decreases n - k,
                    {
                        match cur.check_transition(reg, t) {
                            Some(next) => {
                                cur = next;
                            },
                            None => {
                                moving = false;
                            },
                        }
                        k += 1;
                    }
                    self.ty = cur;
                    self.pressure = self.ty.gas_pressure(reg, m, t, VOLUME);
                }
            },
            _ => {
                self.ty = void;
                self.mass = None;
                self.temperature = None;
                self.pressure = None;
            },
        }
    }

    /// Moves `amount` of mass from `self` into `dest`. The mass that
    /// arrives takes on `dest`'s material; `dest`'s temperature becomes the
    /// mass-weighted mean of both temperatures, rounded toward zero, so that
    /// mass times temperature is kept up to that rounding. Both sides are
    /// normalised afterwards.
    pub fn transfer(&mut self, dest: &mut Material, reg: &Registry, amount: u64)
        requires
            old(self).wf(reg),
            old(dest).wf(reg),
            old(self)@.mass is Some,
            old(dest)@.mass is Some,
            amount <= old(self)@.mass->0,
            old(dest)@.mass->0 + amount <= u64::MAX,
        ensures
            final(self).wf(reg),
            final(dest).wf(reg),
            final(self)@ == settle(
                reg@,
                reg.void_ty(),
                MaterialState { mass: Some((old(self)@.mass->0 - amount) as u64), ..old(self)@ },
            ),
            final(dest)@ == settle(
                reg@,
                reg.void_ty(),
                MaterialState {
                    mass: Some((old(dest)@.mass->0 + amount) as u64),
                    temperature: Some(
                        mixed_temperature(
                            old(dest)@.mass->0 as int,
                            old(dest)@.temperature->0 as int,
                            amount as int,
                            old(self)@.temperature->0 as int,
                        ) as i32,
                    ),
                    ..old(dest)@
                },
            ),
            mass_of(final(self)@) + mass_of(final(dest)@) == mass_of(old(self)@) + mass_of(
                old(dest)@,
            ),
            (final(self)@, final(dest)@) == transferred(reg@, reg.void_ty(), old(self)@, old(dest)@, amount),
    {
        let ms = self.mass.unwrap();
        let ts = self.temperature.unwrap();
        let md = dest.mass.unwrap();
        let td = dest.temperature.unwrap();
        let t = mix(md, td, amount, ts);
        self.mass = Some(ms - amount);
        self.update(reg);
        dest.mass = Some(md + amount);
        dest.temperature = Some(t);
        dest.update(reg);
    }

    pub fn ty(&self) -> (r: MaterialTy)
        ensures
            r == self@.ty,
    {
        self.ty
    }

    pub fn mass(&self) -> (r: Option<u64>)
        ensures
            r == self@.mass,
    {
        self.mass
    }

    pub fn temperature(&self) -> (r: Option<i32>)
        ensures
            r == self@.temperature,
    {
        self.temperature
    }

    pub fn pressure(&self) -> (r: Option<i128>)
        ensures
            r == self@.pressure,
    {
        self.pressure
    }
}

/// Why [`Material::take`] failed.
#[derive(Debug, Clone, Copy, PartialEq, Eq, Structural)]
pub enum TakeError {
    InsufficientMass,
}

/// Why a cell could not be made.
#[derive(Debug, Clone, Copy, PartialEq, Eq, Structural)]
pub enum CellError {
    UnknownMaterial,
}

/// A unit of the simulated grid: where it is and what it holds. Its
/// identifier is assigned when it joins a space.
#[derive(Debug, Clone)]
pub struct Cell {
    id: CellID,
    pos: Position,
    material: Material,
}

impl Cell {
    pub closed spec fn id_spec(&self) -> CellID {
        self.id
    }

    pub closed spec fn pos_spec(&self) -> Position {
        self.pos
    }

    pub closed spec fn material_spec(&self) -> Material {
        self.material
    }

    pub open spec fn wf(&self, reg: &Registry) -> bool {
        self.material_spec().wf(reg)
    }

    /// A cell at `pos` holding `mass` of the material called `material_name`
    /// at `temperature`, normalised at once; fails where the catalog has no
    /// such material.
    pub fn new(reg: &Registry, pos: Position, material_name: &str, mass: u64, temperature: i32) -> (r:
        Result<Cell, CellError>)
        ensures
            match r {
                Ok(c) => {
                    &&& exists|i: int| 0 <= i < reg@.len() && reg@[i].name == material_name@
                    &&& c.pos_spec() == pos
                    &&& c.id_spec() == CellID(0)
                    &&& c.wf(reg)
                    &&& c.material_spec()@ == settle(
                        reg@,
                        reg.void_ty(),
                        MaterialState {
                            ty: MaterialTy::get_spec(reg, material_name@),
                            mass: Some(mass),
                            temperature: Some(temperature),
                            pressure: None,
                        },
                    )
                },
                Err(e) => e == CellError::UnknownMaterial && forall|i: int|
                    0 <= i < reg@.len() ==> reg@[i].name != material_name@,
            },
    {
        match Material::new_unchecked(reg, material_name, mass, temperature) {
            Ok(material) => Ok(Cell { id: CellID(0), pos, material }),
            Err(e) => Err(e),
        }
    }

    /// One tick of gas flow between this cell and an adjacent one, see
    /// [`flow_result`]. Mass is conserved.
    pub fn flow_with(&mut self, other: &mut Cell, reg: &Registry)
        requires
            old(self).wf(reg),
            old(other).wf(reg),
        ensures
            final(self).wf(reg),
            final(other).wf(reg),
            final(self).id_spec() == old(self).id_spec(),
            final(self).pos_spec() == old(self).pos_spec(),
            final(other).id_spec() == old(other).id_spec(),
            final(other).pos_spec() == old(other).pos_spec(),
            (final(self).material_spec()@, final(other).material_spec()@) == flow_result(
                reg@,
                reg.void_ty(),
                old(self).material_spec()@,
                old(other).material_spec()@,
            ),
            mass_of(final(self).material_spec()@) + mass_of(final(other).material_spec()@)
                == mass_of(old(self).material_spec()@) + mass_of(old(other).material_spec()@),
    {
        let a = &mut self.material;
        let b = &mut other.material;
        if a.ty != b.ty {
            return;
        }
        match (a.pressure, b.pressure) {
            (Some(pa), Some(pb)) => {
                let ma = a.mass.unwrap();
                let mb = b.mass.unwrap();
                if pa > pb {
                    let amount = ma / FLOW_DIVISOR;
                    if amount <= u64::MAX - mb {
                        a.transfer(b, reg, amount);
                    }
                } else if pb > pa {
                    let amount = mb / FLOW_DIVISOR;
                    if amount <= u64::MAX - ma {
                        b.transfer(a, reg, amount);
                    }
                }
            },
            _ => {},
        }
    }

    /// The same cell under identifier `id`.
    pub fn with_id(self, id: CellID) -> (r: Cell)
        ensures
            r.id_spec() == id,
            r.pos_spec() == self.pos_spec(),
            r.material_spec() == self.material_spec(),
    {
        Cell { id, ..self }
    }

    pub fn id(&self) -> (r: CellID)
        ensures
            r == self.id_spec(),
    {
        self.id
    }

    pub fn pos(&self) -> (r: Position)
        ensures
            r == self.pos_spec(),
    {
        self.pos
    }

    pub fn get_material(&self) -> (r: &Material)
        ensures
            *r == self.material_spec(),
    {
        &self.material
    }

    pub fn get_gas_pressure(&self) -> (r: Option<i128>)
        ensures
            r == self.material_spec()@.pressure,
    {
        self.material.pressure()
    }

    /// Whether the cell holds gas, i.e. has a pressure.
    pub fn is_gas(&self) -> (r: bool)
        ensures
            r == self.material_spec()@.pressure is Some,
    {
        self.material.pressure().is_some()
    }

    /// Whether the cell's mass has run out.
    pub fn is_void(&self) -> (r: bool)
        ensures
            r == self.material_spec()@.mass is None,
    {
        self.material.mass().is_none()
    }

    /// [`Material::stack`] on the cell's content.
    pub fn stack(&mut self, reg: &Registry, mass: i64)
        requires
            old(self).wf(reg),
            mass >= 0 && old(self).material_spec()@.mass is Some ==> old(
                self,
            ).material_spec()@.mass->0 + mass <= u64::MAX,
        ensures
            final(self).wf(reg),
            final(self).id_spec() == old(self).id_spec(),
            final(self).pos_spec() == old(self).pos_spec(),
            mass < 0 ==> final(self).material_spec()@ == old(self).material_spec()@,
            mass >= 0 ==> final(self).material_spec()@ == settle(
                reg@,
                reg.void_ty(),
                MaterialState {
                    mass: match old(self).material_spec()@.mass {
                        Some(m) => Some((m + mass) as u64),
                        None => None,
                    },
                    ..old(self).material_spec()@
                },
            ),
    {
        self.material.stack(reg, mass);
    }

    /// [`Material::take`] on the cell's content.
    pub fn take(&mut self, reg: &Registry, mass: i64) -> (r: Result<u64, TakeError>)
        requires
            old(self).wf(reg),
            old(self).material_spec()@.mass is Some ==> old(self).material_spec()@.mass->0 - mass
                <= u64::MAX,
        ensures
            final(self).wf(reg),
            final(self).id_spec() == old(self).id_spec(),
            final(self).pos_spec() == old(self).pos_spec(),
            match old(self).material_spec()@.mass {
                Some(m) => if m - mass >= 0 {
                    &&& r == Ok::<u64, TakeError>((m - mass) as u64)
                    &&& final(self).material_spec()@ == settle(
                        reg@,
                        reg.void_ty(),
                        MaterialState {
                            mass: Some((m - mass) as u64),
                            ..old(self).material_spec()@
                        },
                    )
                } else {
                    r == Err::<u64, TakeError>(TakeError::InsufficientMass)
                        && final(self).material_spec()@ == old(self).material_spec()@
                },
                None => r == Err::<u64, TakeError>(TakeError::InsufficientMass)
                    && final(self).material_spec()@ == old(self).material_spec()@,
            },
    {
        self.material.take(reg, mass)
    }

    /// [`Material::heat`] on the cell's content.
    pub fn heat(&mut self, reg: &Registry, temperature: i32)
        requires
            old(self).wf(reg),
            old(self).material_spec()@.temperature is Some ==> i32::MIN <= old(
                self,
            ).material_spec()@.temperature->0 + temperature <= i32::MAX,
        ensures
            final(self).wf(reg),
            final(self).id_spec() == old(self).id_spec(),
            final(self).pos_spec() == old(self).pos_spec(),
            final(self).material_spec()@ == settle(
                reg@,
                reg.void_ty(),
                MaterialState {
                    temperature: match old(self).material_spec()@.temperature {
                        Some(t) => Some((t + temperature) as i32),
                        None => None,
                    },
                    ..old(self).material_spec()@
                },
            ),
    {
        self.material.heat(reg, temperature);
    }
}

/// A normalised material has a pressure exactly when it is a gas and holds
/// mass. Every constructor and mutator of [`Material`] and [`Cell`] leaves
/// its value normalised, so this holds after any sequence of them.
pub proof fn lemma_pressure_iff_gas(reg: &Registry, s: MaterialState)
    requires
        state_wf(reg@, reg.void_ty(), s),
    ensures
        s.pressure is Some <==> (reg.phase_of(s.ty) is Gas && s.mass is Some && s.mass->0 > 0),
{
}

/// Normalising twice gives the state that normalising once gives, wherever
/// the chain of transitions at the cell's temperature comes to rest (it
/// fails to only where it runs round a cycle of materials).
pub proof fn lemma_settle_idempotent(reg: &Registry, s: MaterialState)
    requires
        s.ty.slot < reg@.len(),
        s.temperature matches Some(t) ==> chain_ends(reg@, s.ty, t as int),
    ensures
        settle(reg@, reg.void_ty(), settle(reg@, reg.void_ty(), s)) == settle(
            reg@,
            reg.void_ty(),
            s,
        ),
{
    let once = settle(reg@, reg.void_ty(), s);
    if let (Some(m), Some(t)) = (s.mass, s.temperature) {
        if m != 0 {
            let ty = transition_chain(reg@, s.ty, t as int, reg@.len());
            assert(once.ty == ty);
            assert(transition_chain(reg@, ty, t as int, reg@.len()) == ty);
        }
    }
}

/// A liquid colder than its cold threshold takes its cold product as the
/// first step of its transition chain, even where it is also hotter than its
/// hot threshold.
pub proof fn lemma_liquid_cold_first(reg: &Registry, s: MaterialState)
    requires
        s.ty.slot < reg@.len(),
        reg.phase_of(s.ty) is Liquid,
        s.mass matches Some(m) && m > 0,
        s.temperature matches Some(t) && t < reg.phase_of(s.ty)->Liquid_cold_temp,
    ensures
        transition(reg.phase_of(s.ty), s.temperature->0 as int) == Some(
            reg.phase_of(s.ty)->Liquid_cold_product,
        ),
        settle(reg@, reg.void_ty(), s).ty == transition_chain(
            reg@,
            reg.phase_of(s.ty)->Liquid_cold_product,
            s.temperature->0 as int,
            (reg@.len() - 1) as nat,
        ),
{
}

} // verus!
