//! Chemical formulas as signed multisets of element specifications.
//!
//! An [`Element`] catalogs its isotopes, a [`PeriodicTable`] finds elements
//! by symbol, an [`ElementSpecification`] pairs an element with an isotope
//! number, and a [`ChemicalComposition`] counts specifications. Compositions
//! add, subtract and scale, and render to and parse from text.
//!
//! Real quantities (masses, abundances) travel as [`Binary64`] bit patterns:
//! the library stores, returns and orders them, and leaves their arithmetic
//! to the caller.

pub mod binary64;
pub mod composition;
pub mod counts;
pub mod element;
pub mod error;
pub mod laws;
pub mod order;
pub mod reading;
pub mod specification;
pub mod text;

pub use binary64::Binary64;
pub use composition::ChemicalComposition;
pub use element::{Element, ElementId, Isotope, PeriodicTable};
pub use error::ChemError;
pub use reading::{parse_formula, parse_pairs};
pub use specification::{ElementSpecification, SpecKey};
