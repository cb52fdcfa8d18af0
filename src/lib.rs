//! A spatially indexed cellular simulation: material-bearing cells with
//! phase transitions and ideal-gas pressure, kept in a space that lends
//! out individually locked cells.
//!
//! Quantities are fixed-point integers: positions are grid coordinates,
//! masses are in milligrams, temperatures in hundredths of a degree
//! Celsius, molar masses in milligrams per mole and pressures in
//! millipascal.
//!
//! - [`material`]: the catalog of materials, their transitions and pressure.
//! - [`catalog`]: loading a catalog from CSV text.
//! - [`cell`]: one cell's content and the rules that keep it normalised.
//! - [`pool`]: a keyed container of individually locked values.
//! - [`space`]: the cell space, its indices, queries and gas flow.
//! - [`pos`]: grid positions and displacements.
//! - [`uid`], [`grid`]: identifiers from an explicit counter, and a square grid.

pub mod catalog;
pub mod cell;
pub mod grid;
pub mod material;
pub mod pool;
pub mod pos;
pub mod space;
pub mod uid;
