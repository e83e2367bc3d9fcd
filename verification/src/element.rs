//! Isotopes, elements and the periodic table.

use crate::binary64::Binary64;
use crate::error::ChemError;
use std::collections::HashMap;
use vstd::hash_map::StringHashMap;
use vstd::prelude::*;
use vstd::std_specs::hash::*;
use vstd::std_specs::iter::IteratorSpec;

verus! {

/// One nuclide of an element.
#[derive(Clone, Copy, Debug)]
pub struct Isotope {
    /// The mass, in daltons.
    pub mass: Binary64,
    /// The natural abundance, as a fraction of one.
    pub abundance: Binary64,
    /// The number by which the element's catalog finds the isotope.
    pub neutrons: u16,
    /// The distance, in neutrons, from the element's most abundant isotope.
    pub neutron_shift: i8,
}

impl Default for Isotope {
    fn default() -> (r: Isotope)
        ensures
            r.mass.bits == 0,
            r.abundance.bits == 0,
            r.neutrons == 0,
            r.neutron_shift == 0,
    {
        Isotope {
            mass: Binary64 { bits: 0 },
            abundance: Binary64 { bits: 0 },
            neutrons: 0,
            neutron_shift: 0,
        }
    }
}

/// What makes two elements the same element.
pub struct ElementId {
    pub symbol: Seq<char>,
    pub most_abundant_isotope: u16,
}

/// A chemical element: a symbol and a catalog of isotopes.
///
/// The catalog should hold `most_abundant_isotope`; [`Element::mass`] reports
/// an element for which it does not.
#[derive(Debug)]
pub struct Element {
    pub symbol: String,
    /// The isotopes, each under its number.
    pub isotopes: HashMap<u16, Isotope>,
    pub most_abundant_isotope: u16,
    pub most_abundant_mass: Binary64,
    /// The least neutron shift of the catalog, or zero while not computed.
    pub min_neutron_shift: i8,
    /// The greatest neutron shift of the catalog, or zero while not computed.
    pub max_neutron_shift: i8,
    pub element_number: u8,
}

/// Whether `shift` is the least neutron shift among the isotopes of `catalog`.
pub open spec fn is_least_shift(catalog: Map<u16, Isotope>, shift: i8) -> bool {
    &&& exists|n: u16| #[trigger] catalog.contains_key(n) && catalog[n].neutron_shift == shift
    &&& forall|n: u16| #[trigger] catalog.contains_key(n) ==> shift <= catalog[n].neutron_shift
}

/// Whether `shift` is the greatest neutron shift among the isotopes of
/// `catalog`.
pub open spec fn is_greatest_shift(catalog: Map<u16, Isotope>, shift: i8) -> bool {
    &&& exists|n: u16| #[trigger] catalog.contains_key(n) && catalog[n].neutron_shift == shift
    &&& forall|n: u16| #[trigger] catalog.contains_key(n) ==> shift >= catalog[n].neutron_shift
}

impl Element {
    /// The identity of the element: its symbol and its most abundant isotope.
    pub open spec fn id(&self) -> ElementId {
        ElementId {
            symbol: self.symbol@,
            most_abundant_isotope: self.most_abundant_isotope,
        }
    }

    /// The mass of the isotope `neutrons`, if the element catalogs it.
    pub open spec fn spec_isotope_mass(&self, neutrons: u16) -> Result<Binary64, ChemError> {
        if self.isotopes@.contains_key(neutrons) {
            Ok(self.isotopes@[neutrons].mass)
        } else {
            Err(ChemError::DataIntegrity)
        }
    }

    /// The mass of the most abundant isotope, if the element catalogs it.
    pub open spec fn spec_mass(&self) -> Result<Binary64, ChemError> {
        self.spec_isotope_mass(self.most_abundant_isotope)
    }

    /// The mass of the isotope `neutrons`, or `DataIntegrity` where the
    /// catalog lacks it.
    #[verifier::when_used_as_spec(spec_isotope_mass)]
    pub fn isotope_mass(&self, neutrons: u16) -> (r: Result<Binary64, ChemError>)
        ensures
            r == self.spec_isotope_mass(neutrons),
    {
        broadcast use group_hash_axioms;

        match self.isotopes.get(&neutrons) {
            Some(isotope) => Ok(isotope.mass),
            None => Err(ChemError::DataIntegrity),
        }
    }

    /// The mass of the most abundant isotope, or `DataIntegrity` where the
    /// catalog lacks it.
    #[verifier::when_used_as_spec(spec_mass)]
    pub fn mass(&self) -> (r: Result<Binary64, ChemError>)
        ensures
            r == self.spec_mass(),
    {
        self.isotope_mass(self.most_abundant_isotope)
    }

    /// The least and the greatest neutron shift of the catalog, or `None` for
    /// an empty catalog.
    fn shift_bounds(&self) -> (r: Option<(i8, i8)>)
        ensures
            match r {
                Some((least, greatest)) => is_least_shift(self.isotopes@, least)
                    && is_greatest_shift(self.isotopes@, greatest),
                None => self.isotopes@.dom() =~= Set::empty(),
            },
    {
        broadcast use group_hash_axioms;

        let mut bounds: Option<(i8, i8)> = None;
        for isotope in it: self.isotopes.values()
            invariant
                it.seq() == spec_values_iter(&self.isotopes).remaining(),
                bounds is None <==> it.index() == 0,
                bounds matches Some((least, greatest)) ==> {
                    &&& exists|j: int|
                        0 <= j < it.index() && (#[trigger] it.seq()[j]).neutron_shift == least
                    &&& exists|j: int|
                        0 <= j < it.index() && (#[trigger] it.seq()[j]).neutron_shift == greatest
                    &&& forall|j: int|
                        0 <= j < it.index() ==> least <= (#[trigger] it.seq()[j]).neutron_shift
                            <= greatest
                },
        {
            let shift: i8 = isotope.neutron_shift;
            bounds = match bounds {
                None => Some((shift, shift)),
                Some((least, greatest)) => Some(
                    (
                        if shift < least {
                            shift
                        } else {
                            least
                        },
                        if shift > greatest {
                            shift
                        } else {
                            greatest
                        },
                    ),
                ),
            };
        }
        assert(spec_values_iter(&self.isotopes).remaining().unref().to_set()
            == self.isotopes@.values());
        assert forall|n: u16| #[trigger] self.isotopes@.contains_key(n) implies exists|j: int|
            0 <= j < spec_values_iter(&self.isotopes).remaining().len() && *(
            #[trigger] spec_values_iter(&self.isotopes).remaining()[j]) == self.isotopes@[n] by {
            let all = spec_values_iter(&self.isotopes).remaining();
            assert(self.isotopes@.values().contains(self.isotopes@[n]));
            assert(all.unref().contains(self.isotopes@[n]));
            let j = choose|j: int| 0 <= j < all.unref().len() && all.unref()[j] == self.isotopes@[n];
            assert(*all[j] == self.isotopes@[n]);
        }
        assert forall|j: int|
            0 <= j < spec_values_iter(&self.isotopes).remaining().len() implies self.isotopes@.values().contains(
            *(#[trigger] spec_values_iter(&self.isotopes).remaining()[j]),
        ) by {
            let all = spec_values_iter(&self.isotopes).remaining();
            assert(all.unref()[j] == *all[j]);
            assert(all.unref().contains(*all[j]));
        }
        assert(spec_values_iter(&self.isotopes).remaining().len() == 0 ==> self.isotopes@.dom()
            =~= Set::empty());
        bounds
    }

    /// The least neutron shift: the stored one where that is not zero, else
    /// the least of the catalog, or zero for an empty catalog.
    pub fn calc_min_neutron_shift(&self) -> (r: i8)
        ensures
            self.min_neutron_shift != 0 ==> r == self.min_neutron_shift,
            self.min_neutron_shift == 0 && self.isotopes@.dom() =~= Set::empty() ==> r == 0,
            self.min_neutron_shift == 0 && !(self.isotopes@.dom() =~= Set::empty())
                ==> is_least_shift(self.isotopes@, r),
    {
        if self.min_neutron_shift != 0 {
            return self.min_neutron_shift;
        }
        match self.shift_bounds() {
            Some((least, _)) => least,
            None => 0,
        }
    }

    /// The greatest neutron shift: the stored one where that is not zero,
    /// else the greatest of the catalog, or zero for an empty catalog.
    pub fn calc_max_neutron_shift(&self) -> (r: i8)
        ensures
            self.max_neutron_shift != 0 ==> r == self.max_neutron_shift,
            self.max_neutron_shift == 0 && self.isotopes@.dom() =~= Set::empty() ==> r == 0,
            self.max_neutron_shift == 0 && !(self.isotopes@.dom() =~= Set::empty())
                ==> is_greatest_shift(self.isotopes@, r),
    {
        if self.max_neutron_shift != 0 {
            return self.max_neutron_shift;
        }
        match self.shift_bounds() {
            Some((_, greatest)) => greatest,
            None => 0,
        }
    }

    /// Derives both shift bounds from the catalog. Once either stored bound
    /// is not zero the bounds count as computed, and the call changes
    /// nothing.
    pub fn index_isotopes(&mut self)
        ensures
            final(self).symbol == old(self).symbol,
            final(self).isotopes == old(self).isotopes,
            final(self).most_abundant_isotope == old(self).most_abundant_isotope,
            final(self).most_abundant_mass == old(self).most_abundant_mass,
            final(self).element_number == old(self).element_number,
            old(self).min_neutron_shift != 0 || old(self).max_neutron_shift != 0 ==> {
                &&& final(self).min_neutron_shift == old(self).min_neutron_shift
                &&& final(self).max_neutron_shift == old(self).max_neutron_shift
            },
            old(self).min_neutron_shift == 0 && old(self).max_neutron_shift == 0 ==> {
                if old(self).isotopes@.dom() =~= Set::empty() {
                    final(self).min_neutron_shift == 0 && final(self).max_neutron_shift == 0
                } else {
                    &&& is_least_shift(old(self).isotopes@, final(self).min_neutron_shift)
                    &&& is_greatest_shift(old(self).isotopes@, final(self).max_neutron_shift)
                }
            },
    {
        if self.min_neutron_shift != 0 || self.max_neutron_shift != 0 {
            return ;
        }
        match self.shift_bounds() {
            Some((least, greatest)) => {
                self.max_neutron_shift = greatest;
                self.min_neutron_shift = least;
            },
            None => {},
        }
    }
}

impl Clone for Element {
    fn clone(&self) -> (r: Element)
        ensures
            r.symbol@ == self.symbol@,
            r.isotopes@ == self.isotopes@,
            r.most_abundant_isotope == self.most_abundant_isotope,
            r.most_abundant_mass == self.most_abundant_mass,
            r.min_neutron_shift == self.min_neutron_shift,
            r.max_neutron_shift == self.max_neutron_shift,
            r.element_number == self.element_number,
    {
        Element {
            symbol: self.symbol.clone(),
            isotopes: self.isotopes.clone(),
            most_abundant_isotope: self.most_abundant_isotope,
            most_abundant_mass: self.most_abundant_mass,
            min_neutron_shift: self.min_neutron_shift,
            max_neutron_shift: self.max_neutron_shift,
            element_number: self.element_number,
        }
    }
}

impl Default for Element {
    fn default() -> (r: Element)
        ensures
            r.symbol@ == Seq::<char>::empty(),
            r.isotopes@ == Map::<u16, Isotope>::empty(),
            r.most_abundant_isotope == 0,
            r.most_abundant_mass.bits == 0,
            r.min_neutron_shift == 0,
            r.max_neutron_shift == 0,
            r.element_number == 0,
    {
        Element {
            symbol: String::new(),
            isotopes: HashMap::new(),
            most_abundant_isotope: 0,
            most_abundant_mass: Binary64 { bits: 0 },
            min_neutron_shift: 0,
            max_neutron_shift: 0,
            element_number: 0,
        }
    }
}

impl PartialEq for Element {
    /// Two elements are equal when symbol and most abundant isotope agree.
    fn eq(&self, other: &Element) -> (r: bool) {
        self.symbol == other.symbol && self.most_abundant_isotope == other.most_abundant_isotope
    }
}

impl vstd::std_specs::cmp::PartialEqSpecImpl for Element {
    open spec fn obeys_eq_spec() -> bool {
        true
    }

    open spec fn eq_spec(&self, other: &Element) -> bool {
        self.id() == other.id()
    }
}

impl core::hash::Hash for Element {
    /// Feeds the symbol to the hasher, so that equal elements hash alike.
    #[verifier::external_body]
    fn hash<H: core::hash::Hasher>(&self, state: &mut H) {
        self.symbol.hash(state);
    }
}

/// The registry of elements, each under its symbol.
pub struct PeriodicTable {
    elements: StringHashMap<Element>,
}

impl View for PeriodicTable {
    type V = Map<Seq<char>, Element>;

    /// The elements of the table, by symbol.
    closed spec fn view(&self) -> Map<Seq<char>, Element> {
        self.elements@
    }
}

impl PeriodicTable {
    #[verifier::type_invariant]
    spec fn keyed_by_symbol(self) -> bool {
        forall|symbol: Seq<char>| #[trigger]
            self.elements@.contains_key(symbol) ==> self.elements@[symbol].symbol@ == symbol
    }

    /// An empty table.
    pub fn new() -> (r: PeriodicTable)
        ensures
            r@ == Map::<Seq<char>, Element>::empty(),
    {
        PeriodicTable { elements: StringHashMap::new() }
    }

    /// Puts `element` under its symbol, in place of an element that was there.
    pub fn add(&mut self, element: Element)
        ensures
            final(self)@ == old(self)@.insert(element.symbol@, element),
    {
        proof {
            use_type_invariant(&*self);
        }
        let symbol = element.symbol.clone();
        let mut elements: StringHashMap<Element> = StringHashMap::new();
        core::mem::swap(&mut self.elements, &mut elements);
        elements.insert(symbol, element);
        core::mem::swap(&mut self.elements, &mut elements);
    }

    /// The element with the symbol, if the table has one.
    pub fn get<'a>(&'a self, symbol: &str) -> (r: Option<&'a Element>)
        ensures
            match r {
                Some(element) => self@.contains_key(symbol@) && *element == self@[symbol@]
                    && element.symbol@ == symbol@,
                None => !self@.contains_key(symbol@),
            },
    {
        proof {
            use_type_invariant(self);
        }
        self.elements.get(symbol)
    }

    /// The element with the symbol, or `ElementNotFound`.
    pub fn lookup<'a>(&'a self, symbol: &str) -> (r: Result<&'a Element, ChemError>)
        ensures
            match r {
                Ok(element) => self@.contains_key(symbol@) && *element == self@[symbol@]
                    && element.symbol@ == symbol@,
                Err(e) => !self@.contains_key(symbol@) && e == ChemError::ElementNotFound,
            },
    {
        match self.get(symbol) {
            Some(element) => Ok(element),
            None => Err(ChemError::ElementNotFound),
        }
    }

    /// Whether the table has an element with the symbol.
    pub fn contains(&self, symbol: &str) -> (r: bool)
        ensures
            r == self@.contains_key(symbol@),
    {
        self.elements.contains_key(symbol)
    }

    /// The number of elements.
    pub fn len(&self) -> (r: usize)
        ensures
            r == self@.len(),
    {
        broadcast use vstd::hash_map::group_hash_map_axioms;

        self.elements.len()
    }
}

impl core::ops::Index<&str> for PeriodicTable {
    type Output = Element;

    /// The element with a symbol that the table has.
    fn index(&self, symbol: &str) -> (r: &Element)
        ensures
            *r == self@[symbol@],
            r.symbol@ == symbol@,
    {
        match self.get(symbol) {
            Some(element) => element,
            None => vstd::pervasive::unreached(),
        }
    }
}

impl vstd::std_specs::core::IndexSpecImpl<&str> for PeriodicTable {
    open spec fn index_req(&self, symbol: &&str) -> bool {
        self@.contains_key(symbol@)
    }
}

impl Default for PeriodicTable {
    fn default() -> (r: PeriodicTable)
        ensures
            r@ == Map::<Seq<char>, Element>::empty(),
    {
        PeriodicTable::new()
    }
}

} // verus!
