use vstd::prelude::*;

verus! {

/// Degrees of the Celsius scale, in hundredths, that separate 0 °C from 0 K.
pub const KELVIN_OFFSET_CENTI: i128 = 27315;

/// The ideal gas constant 8.314 J/(mol·K), in thousandths.
pub const GAS_CONSTANT_MILLI: i128 = 8314;

/// Every pressure that [`ideal_gas_pressure`] reaches on a `u64` mass, a
/// positive molar mass, an `i32` temperature and a positive `u32` volume
/// lies strictly between `-PRESSURE_LIMIT` and `PRESSURE_LIMIT` (2^110).
pub const PRESSURE_LIMIT: i128 = 0x4000000000000000000000000000;

/// Why a lookup by name failed.
#[derive(Debug, Clone, Copy, PartialEq, Eq, Structural)]
pub enum LookupError {
    /// The catalog has no material of that name.
    NotFound,
}

/// A handle to a material: the slot it occupies in its [`Registry`].
/// Two handles name the same material exactly when their slots are equal.
#[derive(Debug, Clone, Copy, PartialEq, Eq, Structural, Hash)]
pub struct MaterialTy {
    pub slot: usize,
}

/// The state of matter of a material, with the thresholds at which it turns
/// into another material. Temperatures are in hundredths of a degree Celsius;
/// a molar mass is in milligrams per mole and is never zero.
#[derive(Debug, Clone, Copy, PartialEq, Eq, Structural)]
pub enum Phase {
    Gas { molar_mass: u64, cold_temp: i32, cold_product: MaterialTy },
    Solid { hot_temp: i32, hot_product: MaterialTy },
    Liquid { hot_temp: i32, hot_product: MaterialTy, cold_temp: i32, cold_product: MaterialTy },
}

impl Phase {
    pub fn is_gas(&self) -> (r: bool)
        ensures
            r == self is Gas,
    {
        matches!(self, Phase::Gas { .. })
    }

    pub fn is_solid(&self) -> (r: bool)
        ensures
            r == self is Solid,
    {
        matches!(self, Phase::Solid { .. })
    }

    pub fn is_liquid(&self) -> (r: bool)
        ensures
            r == self is Liquid,
    {
        matches!(self, Phase::Liquid { .. })
    }
}

/// Every material that a phase can turn into lies below `n`.
pub open spec fn products_below(p: Phase, n: nat) -> bool {
    match p {
        Phase::Gas { cold_product, .. } => cold_product.slot < n,
        Phase::Solid { hot_product, .. } => hot_product.slot < n,
        Phase::Liquid { hot_product, cold_product, .. } => hot_product.slot < n && cold_product.slot
            < n,
    }
}

/// A gas's molar mass is positive.
pub open spec fn phase_sane(p: Phase) -> bool {
    match p {
        Phase::Gas { molar_mass, .. } => molar_mass > 0,
        _ => true,
    }
}

/// The material that a material of phase `p` turns into at temperature
/// `temp`, if any. A liquid checks its cold threshold before its hot one.
pub open spec fn transition(p: Phase, temp: int) -> Option<MaterialTy> {
    match p {
        Phase::Gas { cold_temp, cold_product, .. } => if temp < cold_temp {
            Some(cold_product)
        } else {
            None
        },
        Phase::Liquid { hot_temp, hot_product, cold_temp, cold_product } => if temp < cold_temp {
            Some(cold_product)
        } else if temp > hot_temp {
            Some(hot_product)
        } else {
            None
        },
        Phase::Solid { hot_temp, hot_product } => if temp > hot_temp {
            Some(hot_product)
        } else {
            None
        },
    }
}

/// `a / b` rounded toward zero, for `b > 0`.
pub open spec fn div_toward_zero(a: int, b: int) -> int {
    if a >= 0 {
        a / b
    } else {
        -((-a) / b)
    }
}

/// Ideal gas law `p = n·R·T / V` in millipascal, rounded toward zero: `mass`
/// and `molar_mass` in milligrams (per mole), `temperature` in hundredths of
/// a degree Celsius, `volume` in cubic metres.
pub open spec fn ideal_gas_pressure(mass: int, molar_mass: int, temperature: int, volume: int) -> int {
    div_toward_zero(
        mass * GAS_CONSTANT_MILLI * (temperature + KELVIN_OFFSET_CENTI),
        molar_mass * 100 * volume,
    )
}

/// The pressure of `mass` of a material of phase `p`: defined for gases only.
pub open spec fn pressure_of(p: Phase, mass: int, temperature: int, volume: int) -> Option<int> {
    match p {
        Phase::Gas { molar_mass, .. } => Some(
            ideal_gas_pressure(mass, molar_mass as int, temperature, volume),
        ),
        _ => None,
    }
}

/// What a material is, as its registry sees it.
pub struct MaterialView {
    pub name: Seq<char>,
    pub comment: Seq<char>,
    pub phase: Phase,
}

/// One entry of a [`Registry`].
#[derive(Debug, Clone)]
pub struct MaterialData {
    pub name: String,
    pub comment: String,
    pub phase: Phase,
}

impl MaterialData {
    pub open spec fn view(&self) -> MaterialView {
        MaterialView { name: self.name@, comment: self.comment@, phase: self.phase }
    }
}

/// The spelling of the distinguished empty material.
pub open spec fn void_name() -> Seq<char> {
    "void"@
}

/// The conditions that every loaded catalog meets: product references
/// resolve, gases have a molar mass, names are unique and `void` is present.
pub open spec fn catalog_wf(m: Seq<MaterialView>, void: MaterialTy) -> bool {
    &&& m.len() <= usize::MAX
    &&& forall|i: int| 0 <= i < m.len() ==> products_below(#[trigger] m[i].phase, m.len())
    &&& forall|i: int| 0 <= i < m.len() ==> phase_sane(#[trigger] m[i].phase)
    &&& forall|i: int, j: int|
        0 <= i < m.len() && 0 <= j < m.len() && #[trigger] m[i].name == #[trigger] m[j].name
            ==> i == j
    &&& void.slot < m.len()
    &&& m[void.slot as int].name == void_name()
}

/// The immutable catalog of materials. A material is identified by its slot.
#[derive(Debug)]
pub struct Registry {
    materials: Vec<MaterialData>,
    void: MaterialTy,
}

impl Registry {
    #[verifier::type_invariant]
    spec fn inv(&self) -> bool {
        catalog_wf(self@, self.void)
    }

    pub closed spec fn view(&self) -> Seq<MaterialView> {
        self.materials@.map_values(|d: MaterialData| d@)
    }

    /// The handle of the `void` material.
    pub closed spec fn void_ty(&self) -> MaterialTy {
        self.void
    }

    pub open spec fn valid(&self, ty: MaterialTy) -> bool {
        ty.slot < self@.len()
    }

    pub open spec fn phase_of(&self, ty: MaterialTy) -> Phase {
        self@[ty.slot as int].phase
    }

    /// Builds a registry; `pub(crate)` so that only the loader, which checks
    /// the catalog, makes one.
    pub(crate) fn from_parts(materials: Vec<MaterialData>, void: MaterialTy) -> (r: Registry)
        requires
            catalog_wf(materials@.map_values(|d: MaterialData| d@), void),
        ensures
            r@ == materials@.map_values(|d: MaterialData| d@),
            r.void_ty() == void,
    {
        Registry { materials, void }
    }

    pub fn len(&self) -> (r: usize)
        ensures
            r == self@.len(),
    {
        self.materials.len()
    }

    pub fn void(&self) -> (r: MaterialTy)
        ensures
            r == self.void_ty(),
            self.valid(r),
            self@[r.slot as int].name == void_name(),
    {
        proof {
            use_type_invariant(self);
        }
        self.void
    }

    /// The material called `name`, or `None` where the catalog has none.
    pub fn get(&self, name: &str) -> (r: Option<MaterialTy>)
        ensures
            match r {
                Some(ty) => self.valid(ty) && self@[ty.slot as int].name == name@,
                None => forall|i: int| 0 <= i < self@.len() ==> self@[i].name != name@,
            },
            forall|i: int, j: int|
                0 <= i < self@.len() && 0 <= j < self@.len() && #[trigger] self@[i].name
                    == #[trigger] self@[j].name ==> i == j,
    {
        proof {
            use_type_invariant(self);
        }
        let wanted: String = name.to_owned();
        let mut i: usize = 0;
        while i < self.materials.len()
            invariant
                i <= self.materials@.len(),
                wanted@ == name@,
                catalog_wf(self@, self.void),
                self@ == self.materials@.map_values(|d: MaterialData| d@),
                forall|j: int| 0 <= j < i ==> self@[j].name != name@,
            decreases self.materials@.len() - i,
        {
            if self.materials[i].name == wanted {
                return Some(MaterialTy { slot: i });
            }
            i += 1;
        }
        None
    }
}

impl MaterialTy {
    /// The slot of the material called `name` (meaningful where the catalog holds it).
    pub open spec fn get_spec(reg: &Registry, name: Seq<char>) -> MaterialTy {
        MaterialTy { slot: choose|i: usize| (i as int) < reg@.len() && reg@[i as int].name == name }
    }

    /// The material called `name`; `NotFound` where the catalog has none.
    pub fn get_unchecked(reg: &Registry, name: &str) -> (r: Result<MaterialTy, LookupError>)
        ensures
            match r {
                Ok(ty) => {
                    &&& reg.valid(ty)
                    &&& reg@[ty.slot as int].name == name@
                    &&& ty == MaterialTy::get_spec(reg, name@)
                },
                Err(e) => e == LookupError::NotFound && forall|i: int|
                    0 <= i < reg@.len() ==> reg@[i].name != name@,
            },
    {
        match reg.get(name) {
            Some(ty) => Ok(ty),
            None => Err(LookupError::NotFound),
        }
    }

    pub fn name<'a>(&self, reg: &'a Registry) -> (r: &'a str)
        requires
            reg.valid(*self),
        ensures
            r@ == reg@[self.slot as int].name,
    {
        reg.materials[self.slot].name.as_str()
    }

    pub fn comment<'a>(&self, reg: &'a Registry) -> (r: &'a str)
        requires
            reg.valid(*self),
        ensures
            r@ == reg@[self.slot as int].comment,
    {
        reg.materials[self.slot].comment.as_str()
    }

    pub fn phase<'a>(&self, reg: &'a Registry) -> (r: &'a Phase)
        requires
            reg.valid(*self),
        ensures
            *r == reg.phase_of(*self),
    {
        &reg.materials[self.slot].phase
    }

    /// The material that this one turns into at `temp`, if it crosses a threshold.
    pub fn check_transition(&self, reg: &Registry, temp: i32) -> (r: Option<MaterialTy>)
        requires
            reg.valid(*self),
        ensures
            r == transition(reg.phase_of(*self), temp as int),
            r matches Some(t) ==> reg.valid(t),
    {
        proof {
            use_type_invariant(reg);
            assert(products_below(reg@[self.slot as int].phase, reg@.len()));
        }
        match &reg.materials[self.slot].phase {
            Phase::Gas { cold_temp, cold_product, .. } => {
                if temp < *cold_temp {
                    return Some(*cold_product);
                }
            },
            Phase::Liquid { hot_temp, hot_product, cold_temp, cold_product } => {
                if temp < *cold_temp {
                    return Some(*cold_product);
                }
                if temp > *hot_temp {
                    return Some(*hot_product);
                }
            },
            Phase::Solid { hot_temp, hot_product } => {
                if temp > *hot_temp {
                    return Some(*hot_product);
                }
            },
        }
        None
    }

    /// The pressure of `mass` of this material at `temperature` in `volume`:
    /// `Some` for a gas, `None` otherwise.
    pub fn gas_pressure(&self, reg: &Registry, mass: u64, temperature: i32, volume: u32) -> (r:
        Option<i128>)
        requires
            reg.valid(*self),
            volume > 0,
        ensures
            r matches Some(p) ==> pressure_of(reg.phase_of(*self), mass as int, temperature as int, volume as int) == Some(p as int),
            r matches Some(p) ==> -PRESSURE_LIMIT < p < PRESSURE_LIMIT,
            r is None ==> pressure_of(reg.phase_of(*self), mass as int, temperature as int, volume as int) is None,
    {
        proof {
            use_type_invariant(reg);
            assert(phase_sane(reg@[self.slot as int].phase));
        }
        match &reg.materials[self.slot].phase {
            Phase::Gas { molar_mass, .. } => Some(ideal_gas(mass, *molar_mass, temperature, volume)),
            _ => None,
        }
    }
}

/// [`ideal_gas_pressure`] on machine integers.
fn ideal_gas(mass: u64, molar_mass: u64, temperature: i32, volume: u32) -> (r: i128)
    requires
        molar_mass > 0,
        volume > 0,
    ensures
        r == ideal_gas_pressure(mass as int, molar_mass as int, temperature as int, volume as int),
        -PRESSURE_LIMIT < r < PRESSURE_LIMIT,
{
    let kelvin: i128 = temperature as i128 + KELVIN_OFFSET_CENTI;
    let k_abs: u128 = if kelvin < 0 { (-kelvin) as u128 } else { kelvin as u128 };
    let m: u128 = mass as u128;
    assert(m * 8314 <= 0x1_0000_0000_0000_0000u128 * 8314) by (nonlinear_arith)
        requires m <= 0x1_0000_0000_0000_0000u128;
    let mr: u128 = m * 8314;
    assert(mr * k_abs <= (0x1_0000_0000_0000_0000u128 * 8314) * 0x1_0000_0000u128) by (nonlinear_arith)
        requires mr <= 0x1_0000_0000_0000_0000u128 * 8314, k_abs <= 0x1_0000_0000u128;
    let num_abs: u128 = mr * k_abs;
    let mm: u128 = molar_mass as u128;
    assert(mm * 100 <= 0x1_0000_0000_0000_0000u128 * 100) by (nonlinear_arith)
        requires mm <= 0x1_0000_0000_0000_0000u128;
    let d1: u128 = mm * 100;
    assert(d1 * (volume as u128) <= (0x1_0000_0000_0000_0000u128 * 100) * 0x1_0000_0000u128) by (nonlinear_arith)
        requires d1 <= 0x1_0000_0000_0000_0000u128 * 100, volume <= 0x1_0000_0000u128;
    assert(d1 * (volume as u128) > 0) by (nonlinear_arith)
        requires d1 > 0, volume > 0;
    let den: u128 = d1 * (volume as u128);
    assert(num_abs < 0x4_0000_0000_0000_0000_0000_0000_0000u128) by (nonlinear_arith)
        requires num_abs == mr * k_abs, mr <= 0x1_0000_0000_0000_0000u128 * 8314, k_abs <= 0x1_0000_0000u128;
    let q: u128 = num_abs / den;
    assert(q <= num_abs) by (nonlinear_arith)
        requires q == num_abs / den, den > 0;
    proof {
        let num: int = mass * GAS_CONSTANT_MILLI * (temperature + KELVIN_OFFSET_CENTI);
        assert(kelvin == temperature + KELVIN_OFFSET_CENTI);
        if kelvin >= 0 {
            assert(num == num_abs) by (nonlinear_arith)
                requires num == mass * 8314 * kelvin, num_abs == mass * 8314 * k_abs, k_abs == kelvin;
        } else {
            assert(-num == num_abs) by (nonlinear_arith)
                requires num == mass * 8314 * kelvin, num_abs == mass * 8314 * k_abs, k_abs == -kelvin;
        }
        assert(den == molar_mass * 100 * volume);
    }
    if kelvin < 0 {
        -(q as i128)
    } else {
        q as i128
    }
}

} // verus!
