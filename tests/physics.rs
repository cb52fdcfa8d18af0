use cellsim::catalog::LoadError;
use cellsim::cell::{Cell, CellError, Material, TakeError};
use cellsim::material::{LookupError, MaterialTy, Phase, Registry};
use cellsim::pos::Position;

const CATALOG: &str = "\
name,comment,phase,molar_mass,cold_temp,cold_product,hot_temp,hot_product
void,empty space,solid,,,,100000,void
water,liquid water,liquid,,0,ice,100,steam
steam,water vapour,gas,18,100,water,,
ice,frozen water,solid,,,,0,water
odd,inconsistent liquid,liquid,,50,ice,20,steam
";

fn registry() -> Registry {
    Registry::load(CATALOG).expect("catalog loads")
}

fn name_of(reg: &Registry, m: &Material) -> String {
    m.ty().name(reg).to_string()
}

#[test]
fn load_reads_every_material() {
    let reg = registry();
    assert_eq!(reg.len(), 5);
    let water = reg.get("water").unwrap();
    let steam = reg.get("steam").unwrap();
    let ice = reg.get("ice").unwrap();
    assert_eq!(water.comment(&reg), "liquid water");
    assert_eq!(
        *water.phase(&reg),
        Phase::Liquid { hot_temp: 10000, hot_product: steam, cold_temp: 0, cold_product: ice }
    );
    assert_eq!(
        *steam.phase(&reg),
        Phase::Gas { molar_mass: 18000, cold_temp: 10000, cold_product: water }
    );
    assert_eq!(reg.void().name(&reg), "void");
    assert!(reg.get("lava").is_none());
}

#[test]
fn load_reads_decimals() {
    let text = "name,comment,phase,molar_mass,cold_temp,cold_product,hot_temp,hot_product
void,,solid,,,,1,void
gas,light gas,gas,2.016,-252.87,void,,
";
    let reg = Registry::load(text).unwrap();
    let gas = reg.get("gas").unwrap();
    let void = reg.get("void").unwrap();
    assert_eq!(*gas.phase(&reg), Phase::Gas { molar_mass: 2016, cold_temp: -25287, cold_product: void });
}

#[test]
fn load_errors() {
    let header = "name,comment,phase,molar_mass,cold_temp,cold_product,hot_temp,hot_product\n";
    let void = "void,,solid,,,,1,void\n";
    assert_eq!(Registry::load("").err(), Some(LoadError::MissingColumn));
    assert_eq!(Registry::load("name,phase\nvoid,solid\n").err(), Some(LoadError::MissingColumn));
    let bad_phase = format!("{header}{void}x,,plasma,,,,,\n");
    assert_eq!(Registry::load(&bad_phase).err(), Some(LoadError::MalformedRow(2)));
    let bad_number = format!("{header}{void}x,,solid,,,,hot,void\n");
    assert_eq!(Registry::load(&bad_number).err(), Some(LoadError::MalformedRow(2)));
    let too_precise = format!("{header}{void}x,,solid,,,,1.234,void\n");
    assert_eq!(Registry::load(&too_precise).err(), Some(LoadError::MalformedRow(2)));
    let zero_molar = format!("{header}{void}x,,gas,0,1,void,,\n");
    assert_eq!(Registry::load(&zero_molar).err(), Some(LoadError::MalformedRow(2)));
    let dup = format!("{header}{void}x,,solid,,,,1,void\nx,,solid,,,,2,void\n");
    assert_eq!(Registry::load(&dup).err(), Some(LoadError::DuplicateName(3)));
    let unknown = format!("{header}{void}x,,solid,,,,1,lava\n");
    assert_eq!(Registry::load(&unknown).err(), Some(LoadError::UnknownProduct(2)));
    let no_void = format!("{header}x,,solid,,,,1,x\n");
    assert_eq!(Registry::load(&no_void).err(), Some(LoadError::MissingVoid));
    let ragged = format!("{header}{void}x,,solid\n");
    assert_eq!(Registry::load(&ragged).err(), Some(LoadError::Csv));
}

#[test]
fn from_rows_takes_a_table() {
    let row = |fields: &[&str]| fields.iter().map(|f| f.to_string()).collect::<Vec<String>>();
    let table = vec![row(&["phase", "name", "comment", "hot_temp", "hot_product"]), row(&["solid", "void", "", "5", "void"])];
    let reg = Registry::from_rows(&table).unwrap();
    let void = reg.void();
    assert_eq!(*void.phase(&reg), Phase::Solid { hot_temp: 500, hot_product: void });
}

#[test]
fn ideal_gas_pressure_value() {
    let reg = registry();
    let steam = MaterialTy::get_unchecked(&reg, "steam").unwrap();
    // 1 g of steam at 150 °C in 1 m³: 1/18 mol · 8.314 · 423.15 K = 195.448 Pa
    assert_eq!(steam.gas_pressure(&reg, 1000, 15000, 1), Some(195448));
    assert_eq!(steam.gas_pressure(&reg, 1000, 15000, 2), Some(97724));
    let water = reg.get("water").unwrap();
    assert_eq!(water.gas_pressure(&reg, 1000, 15000, 1), None);
}

#[test]
fn transitions() {
    let reg = registry();
    let water = reg.get("water").unwrap();
    let steam = reg.get("steam").unwrap();
    let ice = reg.get("ice").unwrap();
    assert_eq!(water.check_transition(&reg, 15000), Some(steam));
    assert_eq!(water.check_transition(&reg, -1), Some(ice));
    assert_eq!(water.check_transition(&reg, 5000), None);
    assert_eq!(water.check_transition(&reg, 10000), None);
    assert_eq!(steam.check_transition(&reg, 9999), Some(water));
    assert_eq!(ice.check_transition(&reg, 1), Some(water));
    assert_eq!(ice.check_transition(&reg, 0), None);
    assert!(steam.phase(&reg).is_gas());
    assert!(water.phase(&reg).is_liquid());
    assert!(ice.phase(&reg).is_solid());
}

#[test]
fn liquid_checks_cold_before_hot() {
    let reg = registry();
    let odd = reg.get("odd").unwrap();
    assert_eq!(odd.check_transition(&reg, 3000), reg.get("ice"));
    // ice at 30 °C melts in turn, and water at 30 °C stays water
    let m = Material::new_unchecked(&reg, "odd", 1000, 3000).unwrap();
    assert_eq!(name_of(&reg, &m), "water");
}

#[test]
fn update_follows_transitions_to_rest() {
    let reg = registry();
    let mut m = Material::new_unchecked(&reg, "ice", 1000, 15000).unwrap();
    assert_eq!(name_of(&reg, &m), "steam");
    assert_eq!(m.pressure(), Some(195448));
    let once = (m.ty(), m.mass(), m.temperature(), m.pressure());
    m.update(&reg);
    assert_eq!(once, (m.ty(), m.mass(), m.temperature(), m.pressure()));
}

#[test]
fn unknown_names_are_errors() {
    let reg = registry();
    assert_eq!(MaterialTy::get_unchecked(&reg, "lava"), Err(LookupError::NotFound));
    assert_eq!(Material::new_unchecked(&reg, "lava", 1, 1).err(), Some(cellsim::cell::CellError::UnknownMaterial));
}

#[test]
fn water_to_steam_and_back() {
    let reg = registry();
    let mut m = Material::new_unchecked(&reg, "water", 1000, 15000).unwrap();
    assert_eq!(name_of(&reg, &m), "steam");
    assert_eq!(m.pressure(), Some(195448));
    m.heat(&reg, 5000);
    assert_eq!(name_of(&reg, &m), "steam");
    assert!(m.pressure().is_some());
    m.heat(&reg, -11000);
    assert_eq!(m.temperature(), Some(9000));
    assert_eq!(name_of(&reg, &m), "water");
    assert_eq!(m.pressure(), None);
}

#[test]
fn take_more_than_there_fails() {
    let reg = registry();
    let mut m = Material::new_unchecked(&reg, "water", 1000, 2000).unwrap();
    assert_eq!(m.take(&reg, 1001), Err(TakeError::InsufficientMass));
    assert_eq!(m.mass(), Some(1000));
    assert_eq!(m.take(&reg, 400), Ok(600));
    assert_eq!(m.mass(), Some(600));
}

#[test]
fn take_everything_empties() {
    let reg = registry();
    let mut m = Material::new_unchecked(&reg, "steam", 1000, 15000).unwrap();
    assert_eq!(m.take(&reg, 1000), Ok(0));
    assert_eq!(m.mass(), None);
    assert_eq!(m.temperature(), None);
    assert_eq!(m.pressure(), None);
    assert_eq!(m.ty(), reg.void());
    assert_eq!(m.take(&reg, 1), Err(TakeError::InsufficientMass));
    m.stack(&reg, 10);
    assert_eq!(m.mass(), None);
}

#[test]
fn stack_negative_is_ignored() {
    let reg = registry();
    let mut m = Material::new_unchecked(&reg, "water", 1000, 2000).unwrap();
    m.stack(&reg, -5);
    assert_eq!(m.mass(), Some(1000));
    assert_eq!(name_of(&reg, &m), "water");
    m.stack(&reg, 5);
    assert_eq!(m.mass(), Some(1005));
}

#[test]
fn update_twice_is_update_once() {
    let reg = registry();
    let mut m = Material::new_unchecked(&reg, "water", 1000, 15000).unwrap();
    m.update(&reg);
    let once = (m.ty(), m.mass(), m.temperature(), m.pressure());
    m.update(&reg);
    assert_eq!(once, (m.ty(), m.mass(), m.temperature(), m.pressure()));
}

#[test]
fn pressure_only_for_gas_with_mass() {
    let reg = registry();
    let mut m = Material::new_unchecked(&reg, "water", 1000, 2000).unwrap();
    let check = |m: &Material| {
        let gas = m.ty().phase(&reg).is_gas() && m.mass().map_or(false, |x| x > 0);
        assert_eq!(m.pressure().is_some(), gas);
    };
    check(&m);
    m.heat(&reg, 9000);
    check(&m);
    m.stack(&reg, 200);
    check(&m);
    let _ = m.take(&reg, 100);
    check(&m);
    m.heat(&reg, -9000);
    check(&m);
    let _ = m.take(&reg, 1100);
    check(&m);
}

#[test]
fn new_cell_requires_known_material() {
    let reg = registry();
    assert_eq!(Cell::new(&reg, Position::new(0, 0), "lava", 1, 1).err(), Some(CellError::UnknownMaterial));
    let c = Cell::new(&reg, Position::new(2, 3), "ice", 5, -500).unwrap();
    assert_eq!(c.pos(), Position::new(2, 3));
    assert!(!c.is_gas());
    assert!(!c.is_void());
    assert_eq!(c.get_gas_pressure(), None);
    assert_eq!(c.get_material().mass(), Some(5));
}

fn print_catalog(reg: &Registry) {
    for slot in 0..reg.len() {
        let ty = MaterialTy { slot };
        println!("{:?}", (ty.name(reg), ty.comment(reg), ty.phase(reg)));
    }
}

#[test]
fn material_test_read_csv() {
    print_catalog(&registry());
}

#[test]
fn res_test_read_csv() {
    print_catalog(&registry());
}
