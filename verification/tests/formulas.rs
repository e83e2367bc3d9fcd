use chemical_elements::parse_formula;
use chemical_elements::{
    Binary64, ChemError, ChemicalComposition, Element, ElementSpecification, Isotope, PeriodicTable,
};
use std::collections::HashMap;

fn num(x: f64) -> Binary64 {
    Binary64::from_bits(x.to_bits())
}

fn element(symbol: &str, number: u8, most_abundant: u16, isotopes: &[(u16, f64, f64)]) -> Element {
    let mut catalog = HashMap::new();
    let mut most_abundant_mass = 0.0;
    for (neutrons, mass, abundance) in isotopes {
        if *neutrons == most_abundant {
            most_abundant_mass = *mass;
        }
        catalog.insert(
            *neutrons,
            Isotope {
                mass: num(*mass),
                abundance: num(*abundance),
                neutrons: *neutrons,
                neutron_shift: (*neutrons as i32 - most_abundant as i32) as i8,
            },
        );
    }
    Element {
        symbol: symbol.to_string(),
        isotopes: catalog,
        most_abundant_isotope: most_abundant,
        most_abundant_mass: num(most_abundant_mass),
        min_neutron_shift: 0,
        max_neutron_shift: 0,
        element_number: number,
    }
}

fn table() -> PeriodicTable {
    let mut table = PeriodicTable::new();
    table.add(element("H", 1, 1, &[(1, 1.00782503207, 0.999885), (2, 2.0141017778, 0.000115)]));
    table.add(element("C", 6, 12, &[(12, 12.0, 0.9893), (13, 13.0033548378, 0.0107)]));
    table.add(element("N", 7, 14, &[(14, 14.0030740048, 0.99636), (15, 15.0001088982, 0.00364)]));
    table.add(element(
        "O",
        8,
        16,
        &[(16, 15.99491461956, 0.99757), (17, 16.9991317, 0.00038), (18, 17.999161, 0.00205)],
    ));
    table.add(element("Na", 11, 23, &[(23, 22.9897692809, 1.0)]));
    table.add(element("Cl", 17, 35, &[(35, 34.96885268, 0.7576), (37, 36.96590259, 0.2424)]));
    table.add(element("Fe", 26, 56, &[(54, 53.9396105, 0.05845), (56, 55.9349375, 0.91754)]));
    table
}

fn counts(c: &ChemicalComposition) -> Vec<(String, i32)> {
    c.iter().iter().map(|(s, n)| (s.to_string(), *n)).collect()
}

fn pair(text: &str, count: i32) -> (String, i32) {
    (text.to_string(), count)
}

#[test]
fn parse_water() {
    let table = table();
    let c = ChemicalComposition::parse(&table, "H2O").unwrap();
    assert_eq!(counts(&c), vec![pair("H", 2), pair("O", 1)]);
    let h = ElementSpecification::parse(&table, "H").unwrap();
    let o = ElementSpecification::parse(&table, "O").unwrap();
    assert_eq!(c.get(&h), 2);
    assert_eq!(c.get(&o), 1);
    assert_eq!(c.len(), 2);
    assert_eq!(c.cached_mass(), None);
}

#[test]
fn parse_glucose_of_carbon_13() {
    let table = table();
    let c = ChemicalComposition::parse(&table, "C[13]6H12O6").unwrap();
    assert_eq!(counts(&c), vec![pair("C[13]", 6), pair("H", 12), pair("O", 6)]);
    let c13 = ElementSpecification::parse(&table, "C[13]").unwrap();
    let carbon = ElementSpecification::parse(&table, "C").unwrap();
    assert_eq!(c.get(&c13), 6);
    assert_eq!(c.get(&carbon), 0);
}

#[test]
fn parse_an_unclosed_bracket_in_a_formula_fails() {
    let table = table();
    assert_eq!(ChemicalComposition::parse(&table, "Fe[").err(), Some(ChemError::UnclosedBracket));
    assert_eq!(ChemicalComposition::parse(&table, "H2Fe[56").err(), Some(ChemError::UnclosedBracket));
    assert_eq!(ChemicalComposition::parse(&table, "Xx[").err(), Some(ChemError::UnclosedBracket));
    assert_eq!(parse_formula(&table, "Fe[").err(), Some(ChemError::UnclosedBracket));
}

#[test]
fn parse_symbols_of_two_letters() {
    let table = table();
    let c = ChemicalComposition::parse(&table, "NaCl").unwrap();
    assert_eq!(counts(&c), vec![pair("Na", 1), pair("Cl", 1)]);
    let c = ChemicalComposition::parse(&table, "FeCl3").unwrap();
    assert_eq!(counts(&c), vec![pair("Fe", 1), pair("Cl", 3)]);
    let c = ChemicalComposition::parse(&table, "NCl").unwrap();
    assert_eq!(counts(&c), vec![pair("N", 1), pair("Cl", 1)]);
}

#[test]
fn parse_the_empty_formula() {
    let table = table();
    let c = ChemicalComposition::parse(&table, "").unwrap();
    assert_eq!(c.len(), 0);
    assert_eq!(parse_formula(&table, "").unwrap().len(), 0);
}

#[test]
fn parse_sums_a_specification_named_twice() {
    let table = table();
    let c = ChemicalComposition::parse(&table, "CH3CH2OH").unwrap();
    assert_eq!(counts(&c), vec![pair("C", 2), pair("H", 6), pair("O", 1)]);
    let c = ChemicalComposition::parse(&table, "C[13]C[12]C[13]2C").unwrap();
    assert_eq!(counts(&c), vec![pair("C[13]", 3), pair("C[12]", 1), pair("C", 1)]);
}

#[test]
fn parse_counts_of_zero_and_with_leading_zeros() {
    let table = table();
    let c = ChemicalComposition::parse(&table, "C0H007O[]2N[016]").unwrap();
    assert_eq!(counts(&c), vec![pair("C", 0), pair("H", 7), pair("O", 2), pair("N[16]", 1)]);
    assert_eq!(c.len(), 4);
}

#[test]
fn parse_formula_gives_the_tokens_in_order() {
    let table = table();
    let pairs = parse_formula(&table, "H2OH[2]2147483647Fe[56]").unwrap();
    let read: Vec<(String, i32)> = pairs.iter().map(|(s, n)| (s.to_string(), *n)).collect();
    assert_eq!(
        read,
        vec![pair("H", 2), pair("O", 1), pair("H[2]", 2147483647), pair("Fe[56]", 1)]
    );
    assert_eq!(pairs[0].0.element.element_number, 1);
    assert_eq!(pairs[3].0.element.element_number, 26);
}

#[test]
fn parse_a_character_that_starts_no_symbol_fails() {
    let table = table();
    for text in ["h2o", "2H", "H2 O", " H2O", "H2O ", "H-2", "[13]C", "H]", "(H2O)", "H2\u{e9}", "\u{c9}"] {
        assert_eq!(
            ChemicalComposition::parse(&table, text).err(),
            Some(ChemError::UnexpectedCharacter),
            "{}",
            text
        );
    }
}

#[test]
fn parse_an_unknown_symbol_in_a_formula_fails() {
    let table = table();
    for text in ["Xx", "H2Xx", "Hh", "Cl2Fee", "Nacl", "Xx2h"] {
        assert_eq!(
            ChemicalComposition::parse(&table, text).err(),
            Some(ChemError::ElementNotFound),
            "{}",
            text
        );
    }
    assert_eq!(ChemicalComposition::parse(&table, "Xx[1").err(), Some(ChemError::UnclosedBracket));
    assert_eq!(ChemicalComposition::parse(&table, "Xx[a]").err(), Some(ChemError::BadDigitRun));
    assert_eq!(ChemicalComposition::parse(&table, "Xxh").err(), Some(ChemError::ElementNotFound));
}

#[test]
fn parse_bad_digits_in_a_formula_fails() {
    let table = table();
    for text in ["C[1a]", "C[-1]", "C[65536]", "C[13", "H2147483648", "H99999999999999999999", "C[1[2]"] {
        let expected = if text == "C[13" {
            ChemError::UnclosedBracket
        } else {
            ChemError::BadDigitRun
        };
        assert_eq!(ChemicalComposition::parse(&table, text).err(), Some(expected), "{}", text);
    }
    let c = ChemicalComposition::parse(&table, "H2147483647").unwrap();
    assert_eq!(counts(&c), vec![pair("H", 2147483647)]);
    let c = ChemicalComposition::parse(&table, "C[65535]").unwrap();
    assert_eq!(counts(&c), vec![pair("C[65535]", 1)]);
}

#[test]
fn parse_a_sum_out_of_range_fails() {
    let table = table();
    assert_eq!(
        ChemicalComposition::parse(&table, "H2147483647H").err(),
        Some(ChemError::CountOverflow)
    );
    assert_eq!(
        ChemicalComposition::parse(&table, "H2147483647OH1").err(),
        Some(ChemError::CountOverflow)
    );
    assert!(parse_formula(&table, "H2147483647H").is_ok());
    let c = ChemicalComposition::parse(&table, "H2147483647H[2]").unwrap();
    assert_eq!(c.len(), 2);
}

#[test]
fn what_is_written_reads_back() {
    let table = table();
    for text in ["C6H12O6", "C[13]6H12O6", "C2H6O1", "H2O1", "Fe1Cl3", "C1H4N2O1", "C[12]5C[13]1"] {
        let c = ChemicalComposition::parse(&table, text).unwrap();
        let written = c.to_string();
        let back = ChemicalComposition::parse(&table, &written).unwrap();
        assert!(back == c, "{} written as {}", text, written);
    }
    let c = ChemicalComposition::parse(&table, "OHC").unwrap();
    assert_eq!(c.to_string(), "C1H1O1");
}
