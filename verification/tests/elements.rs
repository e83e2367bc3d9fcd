use chemical_elements::{Binary64, ChemError, Element, Isotope, PeriodicTable};
use std::collections::HashMap;
use std::hash::{Hash, Hasher};

fn num(x: f64) -> Binary64 {
    Binary64::from_bits(x.to_bits())
}

fn isotope(mass: f64, abundance: f64, neutrons: u16, neutron_shift: i8) -> Isotope {
    Isotope { mass: num(mass), abundance: num(abundance), neutrons, neutron_shift }
}

fn oxygen() -> Element {
    let mut isotopes = HashMap::new();
    isotopes.insert(16, isotope(15.99491461956, 0.99757, 16, 0));
    isotopes.insert(17, isotope(16.9991317, 0.00038, 17, 1));
    isotopes.insert(18, isotope(17.999161, 0.00205, 18, 2));
    Element {
        symbol: "O".to_string(),
        isotopes,
        most_abundant_isotope: 16,
        most_abundant_mass: num(15.99491461956),
        min_neutron_shift: 0,
        max_neutron_shift: 0,
        element_number: 8,
    }
}

fn iron() -> Element {
    let mut isotopes = HashMap::new();
    isotopes.insert(54, isotope(53.9396105, 0.05845, 54, -2));
    isotopes.insert(56, isotope(55.9349375, 0.91754, 56, 0));
    isotopes.insert(57, isotope(56.935394, 0.02119, 57, 1));
    isotopes.insert(58, isotope(57.9332756, 0.00282, 58, 2));
    Element {
        symbol: "Fe".to_string(),
        isotopes,
        most_abundant_isotope: 56,
        most_abundant_mass: num(55.9349375),
        min_neutron_shift: 0,
        max_neutron_shift: 0,
        element_number: 26,
    }
}

#[test]
fn element_mass_is_that_of_the_most_abundant_isotope() {
    let iron = iron();
    assert_eq!(iron.mass(), Ok(num(55.9349375)));
    assert_eq!(iron.isotope_mass(54), Ok(num(53.9396105)));
}

#[test]
fn element_mass_fails_without_the_most_abundant_isotope() {
    let mut broken = iron();
    broken.most_abundant_isotope = 55;
    assert_eq!(broken.mass(), Err(ChemError::DataIntegrity));
    assert_eq!(broken.isotope_mass(59), Err(ChemError::DataIntegrity));
    assert_eq!(broken.isotope_mass(56), Ok(num(55.9349375)));
}

#[test]
fn neutron_shift_bounds_come_from_the_catalog() {
    let iron = iron();
    assert_eq!(iron.calc_min_neutron_shift(), -2);
    assert_eq!(iron.calc_max_neutron_shift(), 2);
    let oxygen = oxygen();
    assert_eq!(oxygen.calc_min_neutron_shift(), 0);
    assert_eq!(oxygen.calc_max_neutron_shift(), 2);
}

#[test]
fn stored_neutron_shift_bounds_win_over_the_catalog() {
    let mut iron = iron();
    iron.min_neutron_shift = -7;
    iron.max_neutron_shift = 9;
    assert_eq!(iron.calc_min_neutron_shift(), -7);
    assert_eq!(iron.calc_max_neutron_shift(), 9);
}

#[test]
fn neutron_shift_bounds_of_an_empty_catalog_are_zero() {
    let empty = Element::default();
    assert_eq!(empty.calc_min_neutron_shift(), 0);
    assert_eq!(empty.calc_max_neutron_shift(), 0);
}

#[test]
fn index_isotopes_derives_both_bounds() {
    let mut iron = iron();
    iron.index_isotopes();
    assert_eq!(iron.min_neutron_shift, -2);
    assert_eq!(iron.max_neutron_shift, 2);
    assert_eq!(iron.symbol, "Fe");
    assert_eq!(iron.isotopes.len(), 4);
    assert_eq!(iron.most_abundant_isotope, 56);
    assert_eq!(iron.element_number, 26);
}

#[test]
fn index_isotopes_changes_nothing_once_a_bound_is_not_zero() {
    let mut iron = iron();
    iron.index_isotopes();
    iron.isotopes.insert(60, isotope(59.934, 0.0, 60, 4));
    iron.index_isotopes();
    assert_eq!(iron.min_neutron_shift, -2);
    assert_eq!(iron.max_neutron_shift, 2);

    let mut oxygen = oxygen();
    oxygen.max_neutron_shift = 1;
    oxygen.index_isotopes();
    assert_eq!(oxygen.min_neutron_shift, 0);
    assert_eq!(oxygen.max_neutron_shift, 1);
}

#[test]
fn index_isotopes_of_an_empty_catalog_leaves_zero() {
    let mut empty = Element::default();
    empty.index_isotopes();
    assert_eq!(empty.min_neutron_shift, 0);
    assert_eq!(empty.max_neutron_shift, 0);
}

#[test]
fn elements_are_equal_by_symbol_and_most_abundant_isotope() {
    let a = iron();
    let mut b = iron();
    b.isotopes.clear();
    b.element_number = 0;
    assert!(a == b);
    let mut c = iron();
    c.most_abundant_isotope = 54;
    assert!(a != c);
    assert!(a != oxygen());
}

#[test]
fn element_clone_keeps_every_field() {
    let a = iron();
    let b = a.clone();
    assert_eq!(b.symbol, "Fe");
    assert_eq!(b.isotopes.len(), 4);
    assert_eq!(b.isotopes[&57].neutron_shift, 1);
    assert_eq!(b.most_abundant_isotope, 56);
    assert_eq!(b.most_abundant_mass, num(55.9349375));
    assert_eq!(b.element_number, 26);
}

#[test]
fn default_element_and_isotope_are_empty() {
    let e = Element::default();
    assert_eq!(e.symbol, "");
    assert!(e.isotopes.is_empty());
    assert_eq!(e.most_abundant_mass.to_bits(), 0);
    let i = Isotope::default();
    assert_eq!(i.mass.to_bits(), 0);
    assert_eq!(i.abundance.to_bits(), 0);
    assert_eq!(i.neutrons, 0);
    assert_eq!(i.neutron_shift, 0);
}

#[test]
fn table_finds_what_was_added() {
    let mut table = PeriodicTable::new();
    assert_eq!(table.len(), 0);
    table.add(iron());
    table.add(oxygen());
    assert_eq!(table.len(), 2);
    assert!(table.contains("Fe"));
    assert!(!table.contains("F"));
    assert_eq!(table.get("O").map(|e| e.element_number), Some(8));
    assert_eq!(table.lookup("Fe").map(|e| e.element_number), Ok(26));
    assert_eq!(table["Fe"].most_abundant_isotope, 56);
}

#[test]
fn table_lookup_of_an_unknown_symbol_fails() {
    let mut table = PeriodicTable::new();
    table.add(iron());
    assert!(table.get("Xx").is_none());
    assert_eq!(table.lookup("Xx").err(), Some(ChemError::ElementNotFound));
    assert_eq!(table.lookup("fe").err(), Some(ChemError::ElementNotFound));
    assert_eq!(table.lookup("").err(), Some(ChemError::ElementNotFound));
}

#[test]
fn table_add_replaces_an_element_of_the_same_symbol() {
    let mut table = PeriodicTable::new();
    table.add(iron());
    let mut other = iron();
    other.element_number = 99;
    table.add(other);
    assert_eq!(table.len(), 1);
    assert_eq!(table.lookup("Fe").map(|e| e.element_number), Ok(99));
    table.add(iron());
    assert_eq!(table.lookup("Fe").map(|e| e.element_number), Ok(26));
}

#[test]
fn default_table_is_empty() {
    let table = PeriodicTable::default();
    assert_eq!(table.len(), 0);
    assert!(!table.contains("H"));
}

#[test]
fn error_messages() {
    assert_eq!(ChemError::UnclosedBracket.message(), "Unclosed [ in element specifier");
    assert_eq!(ChemError::BadDigitRun.message(), "Invalid digits in element specifier");
    assert_eq!(ChemError::UnexpectedCharacter.message(), "Unexpected character in formula");
    assert_eq!(ChemError::ElementNotFound.message(), "Element not found");
    assert_eq!(ChemError::DataIntegrity.message(), "Isotope missing from element");
    assert_eq!(ChemError::CountOverflow.message(), "Count out of range");
}

#[test]
fn order_key_orders_as_the_numbers_do() {
    let samples = [
        f64::NEG_INFINITY,
        -1.0e300,
        -294.0,
        -1.00782503207,
        -1.0e-300,
        -0.0,
        0.0,
        1.0e-300,
        1.00782503207,
        12.0,
        13.0033548378,
        15.99491461956,
        55.9349375,
        294.0,
        5000.0,
        1.0e300,
        f64::INFINITY,
    ];
    for (i, a) in samples.iter().enumerate() {
        for (j, b) in samples.iter().enumerate() {
            let ka = num(*a).order_key();
            let kb = num(*b).order_key();
            assert_eq!(ka < kb, i < j, "{} against {}", a, b);
            assert_eq!(ka.cmp(&kb), a.total_cmp(b), "{} against {}", a, b);
        }
    }
}

#[test]
fn order_key_exact_values() {
    assert_eq!(Binary64::from_bits(0).order_key(), 0x8000_0000_0000_0000);
    assert_eq!(Binary64::from_bits(0x8000_0000_0000_0000).order_key(), 0x7fff_ffff_ffff_ffff);
    assert_eq!(Binary64::from_bits(u64::MAX).order_key(), 0);
    assert_eq!(Binary64::from_bits(0x7fff_ffff_ffff_ffff).order_key(), u64::MAX);
    assert_eq!(num(12.0).order_key(), 12.0f64.to_bits() + 0x8000_0000_0000_0000);
}

#[test]
fn binary64_keeps_its_bits() {
    let x = 1.00782503207f64;
    let b = Binary64::from_bits(x.to_bits());
    assert_eq!(b.to_bits(), x.to_bits());
    assert_eq!(f64::from_bits(b.bits), x);
    assert_eq!(Binary64::default().to_bits(), 0);
    assert_eq!(b, b.clone());
    assert_ne!(b, num(1.0));
}

#[test]
fn equal_elements_hash_alike() {
    let a = iron();
    let mut b = iron();
    b.isotopes.clear();
    b.element_number = 0;
    let mut first = std::collections::hash_map::DefaultHasher::new();
    a.hash(&mut first);
    let mut second = std::collections::hash_map::DefaultHasher::new();
    b.hash(&mut second);
    assert!(a == b);
    assert_eq!(first.finish(), second.finish());
    let mut third = std::collections::hash_map::DefaultHasher::new();
    oxygen().hash(&mut third);
    assert_ne!(first.finish(), third.finish());
}
