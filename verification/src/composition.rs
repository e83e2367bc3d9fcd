//! Chemical compositions: signed counts of element specifications.

use crate::binary64::Binary64;
use crate::counts::{
    accumulate, accumulate_fits, count_of, counts_of, difference_counts, distinct_keys, fits_i32,
    has_key, lemma_accumulate, lemma_accumulate_counts, lemma_accumulate_fits_prefix,
    lemma_counts_len, lemma_position_of, lemma_scaled, lemma_upsert,
    position_of, scale_counts, scaled, signed, sum_counts, total_of, upsert,
};
use crate::error::ChemError;
use crate::order::{render, sort_for_writing, write_entries, written_order};
use crate::specification::{ElementSpecification, SpecKey};
use vstd::prelude::*;

verus! {

/// A chemical formula: a count, which may be negative or zero, for each of
/// the specifications it mentions, and a place for its mass once computed.
///
/// An entry with count zero is an entry: it differs from no entry. Every
/// change of the counts empties the place for the mass.
#[derive(Debug)]
pub struct ChemicalComposition<'a> {
    entries: Vec<(ElementSpecification<'a>, i32)>,
    mass_cache: Option<Binary64>,
}

impl<'a> View for ChemicalComposition<'a> {
    type V = Map<SpecKey, int>;

    /// The counts, by key.
    open spec fn view(&self) -> Map<SpecKey, int> {
        counts_of(self.entries())
    }
}

impl<'a> ChemicalComposition<'a> {
    #[verifier::type_invariant]
    spec fn keys_are_distinct(self) -> bool {
        distinct_keys(self.entries@)
    }

    /// The entries, in the order in which their keys first came.
    pub closed spec fn entries(&self) -> Seq<(ElementSpecification<'a>, i32)> {
        self.entries@
    }

    /// The mass that was stored since the counts last changed, if any.
    pub closed spec fn cached(&self) -> Option<Binary64> {
        self.mass_cache
    }

    /// The composition without entries.
    pub fn new() -> (r: ChemicalComposition<'a>)
        ensures
            r.entries() == Seq::<(ElementSpecification<'a>, i32)>::empty(),
            r@ == Map::<SpecKey, int>::empty(),
            r.cached() is None,
    {
        let r = ChemicalComposition { entries: Vec::new(), mass_cache: None };
        assert(r@ =~= Map::<SpecKey, int>::empty());
        r
    }

    /// The position of the entry about the key of `spec`.
    fn position(&self, spec: &ElementSpecification<'a>) -> (r: Option<usize>)
        ensures
            match r {
                Some(i) => i < self.entries().len() && self.entries()[i as int].0@ == spec@,
                None => !has_key(self.entries(), spec@),
            },
    {
        let mut i: usize = 0;
        while i < self.entries.len()
            invariant
                i <= self.entries@.len(),
                forall|j: int| 0 <= j < i ==> (#[trigger] self.entries@[j]).0@ != spec@,
            decreases self.entries@.len() - i,
        {
            if self.entries[i].0 == *spec {
                return Some(i);
            }
            i += 1;
        }
        None
    }

    /// The count of `spec`: zero where the composition has no entry for it.
    pub fn get(&self, spec: &ElementSpecification<'a>) -> (r: i32)
        ensures
            r == count_of(self@, spec@),
    {
        proof {
            use_type_invariant(self);
        }
        match self.position(spec) {
            Some(i) => {
                proof {
                    lemma_position_of(self.entries@, i as int);
                }
                self.entries[i].1
            },
            None => 0,
        }
    }

    /// Sets the count of `spec`, in a new entry where there was none, and
    /// forgets the stored mass.
    pub fn set(&mut self, spec: ElementSpecification<'a>, count: i32)
        ensures
            final(self).entries() == upsert(old(self).entries(), spec, count),
            final(self)@ == old(self)@.insert(spec@, count as int),
            final(self).cached() is None,
    {
        proof {
            use_type_invariant(&*self);
            lemma_upsert(self.entries@, spec, count);
        }
        let found = self.position(&spec);
        // The entries leave the composition while they change, so that what
        // it holds has distinct keys at every moment.
        let mut entries: Vec<(ElementSpecification<'a>, i32)> = Vec::new();
        core::mem::swap(&mut self.entries, &mut entries);
        match found {
            Some(i) => {
                proof {
                    lemma_position_of(entries@, i as int);
                }
                let kept = entries[i].0;
                entries.set(i, (kept, count));
            },
            None => {
                entries.push((spec, count));
            },
        }
        core::mem::swap(&mut self.entries, &mut entries);
        self.mass_cache = None;
    }

    /// Adds `delta` to the count of `spec`, which counts as zero where there
    /// was no entry, and forgets the stored mass.
    pub fn inc(&mut self, spec: ElementSpecification<'a>, delta: i32)
        requires
            fits_i32(count_of(old(self)@, spec@) + delta),
        ensures
            final(self).entries() == upsert(
                old(self).entries(),
                spec,
                (count_of(old(self)@, spec@) + delta) as i32,
            ),
            final(self)@ == old(self)@.insert(spec@, count_of(old(self)@, spec@) + delta),
            final(self).cached() is None,
    {
        let current = self.get(&spec);
        self.set(spec, current + delta);
    }

    /// Adds each pair of `pairs`, in order, to the count of its key, or takes
    /// it from that count where `negate` is set. Stops, and says so, at the
    /// first count that is no 32-bit signed number.
    fn accumulate_checked(
        &mut self,
        pairs: &Vec<(ElementSpecification<'a>, i32)>,
        negate: bool,
    ) -> (done: bool)
        ensures
            done == accumulate_fits(old(self).entries(), pairs@, negate),
            done ==> final(self).entries() == accumulate(old(self).entries(), pairs@, negate),
            final(self).cached() is None,
    {
        let ghost start = self.entries@;
        proof {
            use_type_invariant(&*self);
        }
        self.mass_cache = None;
        let mut j: usize = 0;
        while j < pairs.len()
            invariant
                j <= pairs@.len(),
                start == old(self).entries@,
                accumulate_fits(start, pairs@.take(j as int), negate),
                self.entries@ == accumulate(start, pairs@.take(j as int), negate),
                self.mass_cache is None,
            decreases pairs@.len() - j,
        {
            let (spec, delta) = pairs[j];
            proof {
                assert(pairs@.take(j + 1).drop_last() =~= pairs@.take(j as int));
            }
            let current: i64 = self.get(&spec) as i64;
            let next: i64 = if negate {
                current - delta as i64
            } else {
                current + delta as i64
            };
            if next < -0x8000_0000 || next > 0x7fff_ffff {
                proof {
                    if accumulate_fits(start, pairs@, negate) {
                        lemma_accumulate_fits_prefix(start, pairs@, negate, j + 1);
                        let upto = pairs@.take(j + 1);
                        assert(upto.last() == (spec, delta));
                        assert(accumulate(start, upto.drop_last(), negate) == self.entries@);
                        assert(fits_i32(
                            count_of(counts_of(self.entries@), spec@) + signed(
                                delta as int,
                                negate,
                            ),
                        ));
                        assert(false);
                    }
                }
                return false;
            }
            self.set(spec, next as i32);
            j += 1;
        }
        assert(pairs@.take(j as int) =~= pairs@);
        true
    }

    /// The composition that holds, for each key that `pairs` mention, the
    /// total of the counts given for it; `None` where a count on the way is
    /// no 32-bit signed number.
    pub fn try_from_pairs(pairs: &Vec<(ElementSpecification<'a>, i32)>) -> (r: Option<
        ChemicalComposition<'a>,
    >)
        ensures
            r is Some <==> accumulate_fits(Seq::empty(), pairs@, false),
            r matches Some(c) ==> {
                &&& c.entries() == accumulate(Seq::empty(), pairs@, false)
                &&& forall|key: SpecKey| c@.contains_key(key) <==> has_key(pairs@, key)
                &&& forall|key: SpecKey| count_of(c@, key) == total_of(pairs@, key)
                &&& c.cached() is None
            },
    {
        let mut c = ChemicalComposition::new();
        let done = c.accumulate_checked(pairs, false);
        if done {
            proof {
                lemma_accumulate(Seq::empty(), pairs@, false);
            }
            Some(c)
        } else {
            None
        }
    }

    /// The composition that holds, for each key that `pairs` mention, the
    /// total of the counts given for it.
    pub fn from_pairs(pairs: &Vec<(ElementSpecification<'a>, i32)>) -> (r: ChemicalComposition<
        'a,
    >)
        requires
            accumulate_fits(Seq::empty(), pairs@, false),
        ensures
            r.entries() == accumulate(Seq::empty(), pairs@, false),
            forall|key: SpecKey| r@.contains_key(key) <==> has_key(pairs@, key),
            forall|key: SpecKey| count_of(r@, key) == total_of(pairs@, key),
            r.cached() is None,
    {
        let mut r = ChemicalComposition::new();
        proof {
            lemma_accumulate(Seq::empty(), pairs@, false);
        }
        let done = r.accumulate_checked(pairs, false);
        r
    }

    /// Adds the counts of `other`, key by key, and forgets the stored mass.
    pub fn _add_from(&mut self, other: &ChemicalComposition<'a>)
        requires
            forall|key: SpecKey| #[trigger]
                other@.contains_key(key) ==> fits_i32(count_of(old(self)@, key) + other@[key]),
        ensures
            final(self)@ == sum_counts(old(self)@, other@),
            final(self).entries() == accumulate(old(self).entries(), other.entries(), false),
            final(self).cached() is None,
    {
        proof {
            use_type_invariant(&*self);
            use_type_invariant(other);
            assert(self@ == counts_of(self.entries@));
            assert(other@ == counts_of(other.entries@));
            lemma_accumulate_counts(self.entries@, other.entries@, false);
        }
        let done = self.accumulate_checked(&other.entries, false);
    }

    /// Takes the counts of `other` away, key by key, and forgets the stored
    /// mass. Counts may become negative.
    pub fn _sub_from(&mut self, other: &ChemicalComposition<'a>)
        requires
            forall|key: SpecKey| #[trigger]
                other@.contains_key(key) ==> fits_i32(count_of(old(self)@, key) - other@[key]),
        ensures
            final(self)@ == difference_counts(old(self)@, other@),
            final(self).entries() == accumulate(old(self).entries(), other.entries(), true),
            final(self).cached() is None,
    {
        proof {
            use_type_invariant(&*self);
            use_type_invariant(other);
            assert(self@ == counts_of(self.entries@));
            assert(other@ == counts_of(other.entries@));
            lemma_accumulate_counts(self.entries@, other.entries@, true);
        }
        let done = self.accumulate_checked(&other.entries, true);
    }

    /// Multiplies the count of every entry by `factor` and forgets the
    /// stored mass. No entry comes or goes.
    pub fn _mul_by(&mut self, factor: i32)
        requires
            forall|key: SpecKey| #[trigger]
                old(self)@.contains_key(key) ==> fits_i32(old(self)@[key] * factor),
        ensures
            final(self)@ == scale_counts(old(self)@, factor as int),
            final(self).entries() == scaled(old(self).entries(), factor),
            final(self).cached() is None,
    {
        proof {
            use_type_invariant(&*self);
            assert(self@ == counts_of(self.entries@));
            lemma_scaled(self.entries@, factor);
        }
        let ghost start = self.entries@;
        let mut entries: Vec<(ElementSpecification<'a>, i32)> = Vec::new();
        core::mem::swap(&mut self.entries, &mut entries);
        let mut i: usize = 0;
        while i < entries.len()
            invariant
                i <= entries@.len(),
                entries@.len() == start.len(),
                distinct_keys(start),
                forall|key: SpecKey| #[trigger]
                    counts_of(start).contains_key(key) ==> fits_i32(counts_of(start)[key] * factor),
                forall|j: int| 0 <= j < i ==> entries@[j] == scaled(start, factor)[j],
                forall|j: int| i <= j < entries@.len() ==> entries@[j] == start[j],
            decreases entries@.len() - i,
        {
            let (spec, count) = entries[i];
            proof {
                lemma_position_of(start, i as int);
            }
            entries.set(i, (spec, count * factor));
            i += 1;
        }
        assert(entries@ =~= scaled(start, factor));
        core::mem::swap(&mut self.entries, &mut entries);
        self.mass_cache = None;
    }

    /// Does what [`Self::inc`] does where the new count is a 32-bit signed
    /// number; else changes nothing and says so.
    pub fn checked_inc(&mut self, spec: ElementSpecification<'a>, delta: i32) -> (done: bool)
        ensures
            done == fits_i32(count_of(old(self)@, spec@) + delta),
            done ==> {
                &&& final(self).entries() == upsert(
                    old(self).entries(),
                    spec,
                    (count_of(old(self)@, spec@) + delta) as i32,
                )
                &&& final(self)@ == old(self)@.insert(spec@, count_of(old(self)@, spec@) + delta)
                &&& final(self).cached() is None
            },
            !done ==> final(self).entries() == old(self).entries() && final(self).cached() == old(
                self,
            ).cached(),
    {
        let next: i64 = self.get(&spec) as i64 + delta as i64;
        if next < -0x8000_0000 || next > 0x7fff_ffff {
            return false;
        }
        self.set(spec, next as i32);
        true
    }

    /// The sum of the composition and `other`, or `None` where the sum of
    /// the two counts of some key is no 32-bit signed number.
    pub fn checked_add(&self, other: &ChemicalComposition<'a>) -> (r: Option<
        ChemicalComposition<'a>,
    >)
        ensures
            r is Some <==> (forall|key: SpecKey| #[trigger]
                other@.contains_key(key) ==> fits_i32(count_of(self@, key) + other@[key])),
            r matches Some(sum) ==> {
                &&& sum@ == sum_counts(self@, other@)
                &&& sum.entries() == accumulate(self.entries(), other.entries(), false)
                &&& sum.cached() is None
            },
    {
        let mut sum = self.clone();
        proof {
            use_type_invariant(self);
            use_type_invariant(other);
            assert(self@ == counts_of(self.entries@));
            assert(other@ == counts_of(other.entries@));
            lemma_accumulate_counts(self.entries@, other.entries@, false);
        }
        if sum.accumulate_checked(&other.entries, false) {
            Some(sum)
        } else {
            None
        }
    }

    /// The difference of the composition and `other`, or `None` where the
    /// difference of the two counts of some key is no 32-bit signed number.
    pub fn checked_sub(&self, other: &ChemicalComposition<'a>) -> (r: Option<
        ChemicalComposition<'a>,
    >)
        ensures
            r is Some <==> (forall|key: SpecKey| #[trigger]
                other@.contains_key(key) ==> fits_i32(count_of(self@, key) - other@[key])),
            r matches Some(difference) ==> {
                &&& difference@ == difference_counts(self@, other@)
                &&& difference.entries() == accumulate(self.entries(), other.entries(), true)
                &&& difference.cached() is None
            },
    {
        let mut difference = self.clone();
        proof {
            use_type_invariant(self);
            use_type_invariant(other);
            assert(self@ == counts_of(self.entries@));
            assert(other@ == counts_of(other.entries@));
            lemma_accumulate_counts(self.entries@, other.entries@, true);
        }
        if difference.accumulate_checked(&other.entries, true) {
            Some(difference)
        } else {
            None
        }
    }

    /// The composition multiplied by `factor`, or `None` where the product
    /// of some count is no 32-bit signed number.
    pub fn checked_mul(&self, factor: i32) -> (r: Option<ChemicalComposition<'a>>)
        ensures
            r is Some <==> (forall|key: SpecKey| #[trigger]
                self@.contains_key(key) ==> fits_i32(self@[key] * factor)),
            r matches Some(product) ==> {
                &&& product@ == scale_counts(self@, factor as int)
                &&& product.entries() == scaled(self.entries(), factor)
                &&& product.cached() is None
            },
    {
        proof {
            use_type_invariant(self);
            assert(self@ == counts_of(self.entries@));
        }
        let mut entries: Vec<(ElementSpecification<'a>, i32)> = Vec::new();
        let mut i: usize = 0;
        while i < self.entries.len()
            invariant
                i <= self.entries@.len(),
                distinct_keys(self.entries@),
                self@ == counts_of(self.entries@),
                entries@.len() == i,
                forall|j: int|
                    0 <= j < i ==> fits_i32((#[trigger] self.entries@[j]).1 * factor),
                forall|j: int|
                    0 <= j < i ==> (#[trigger] entries@[j]) == scaled(self.entries@, factor)[j],
            decreases self.entries@.len() - i,
        {
            let (spec, count) = self.entries[i];
            proof {
                lemma_position_of(self.entries@, i as int);
                assert(-0x4000_0000_0000_0000 <= (count as int) * (factor as int)
                    <= 0x4000_0000_0000_0000) by (nonlinear_arith)
                    requires
                        -0x8000_0000 <= count as int <= 0x7fff_ffff,
                        -0x8000_0000 <= factor as int <= 0x7fff_ffff,
                ;
            }
            let product: i64 = count as i64 * factor as i64;
            if product < -0x8000_0000 || product > 0x7fff_ffff {
                assert(self@.contains_key(spec@) && !fits_i32(self@[spec@] * factor));
                return None;
            }
            assert(product == self.entries@[i as int].1 * factor);
            entries.push((spec, product as i32));
            i += 1;
        }
        proof {
            assert forall|key: SpecKey| #[trigger] self@.contains_key(key) implies fits_i32(
                self@[key] * factor,
            ) by {
                let j = position_of(self.entries@, key);
                lemma_position_of(self.entries@, j);
                assert(fits_i32(self.entries@[j].1 * factor));
            }
            lemma_scaled(self.entries@, factor);
            assert(entries@ =~= scaled(self.entries@, factor));
        }
        Some(ChemicalComposition { entries, mass_cache: None })
    }

    /// Whether `other` has every entry of the composition, with its count.
    fn is_within(&self, other: &ChemicalComposition<'a>) -> (r: bool)
        ensures
            r == forall|key: SpecKey| #[trigger]
                self@.contains_key(key) ==> other@.contains_key(key) && other@[key] == self@[key],
    {
        proof {
            use_type_invariant(self);
            use_type_invariant(other);
        }
        let mut i: usize = 0;
        while i < self.entries.len()
            invariant
                i <= self.entries@.len(),
                distinct_keys(self.entries@),
                distinct_keys(other.entries@),
                forall|j: int|
                    0 <= j < i ==> other@.contains_key((#[trigger] self.entries@[j]).0@)
                        && other@[self.entries@[j].0@] == self.entries@[j].1,
            decreases self.entries@.len() - i,
        {
            let (spec, count) = self.entries[i];
            proof {
                lemma_position_of(self.entries@, i as int);
            }
            match other.position(&spec) {
                Some(p) => {
                    proof {
                        lemma_position_of(other.entries@, p as int);
                    }
                    if other.entries[p].1 != count {
                        assert(self@.contains_key(spec@) && other@[spec@] != self@[spec@]);
                        return false;
                    }
                },
                None => {
                    assert(self@.contains_key(spec@) && !other@.contains_key(spec@));
                    return false;
                },
            }
            i += 1;
        }
        assert forall|key: SpecKey| #[trigger] self@.contains_key(key) implies other@.contains_key(
            key,
        ) && other@[key] == self@[key] by {
            let j = position_of(self.entries@, key);
            lemma_position_of(self.entries@, j);
        }
        true
    }

    /// The text of the composition: the entries in written order (carbon,
    /// then hydrogen, then the others from the heaviest element down), each
    /// as its specification followed by its count, with nothing between.
    pub fn to_string(&self) -> (r: String)
        ensures
            r@ == render(written_order(self.entries())),
    {
        let sorted = sort_for_writing(&self.entries);
        let mut out = String::new();
        write_entries(&sorted, &mut out);
        assert(out@ =~= render(sorted@));
        out
    }

    /// For each entry, in order, the mass of one atom and the count: the
    /// terms whose products add up to the mass of the composition. Fails
    /// with `DataIntegrity` where an element does not catalog the isotope
    /// that an entry asks for.
    pub fn mass_terms(&self) -> (r: Result<Vec<(Binary64, i32)>, ChemError>)
        ensures
            match r {
                Ok(terms) => {
                    &&& terms@.len() == self.entries().len()
                    &&& forall|i: int|
                        0 <= i < terms@.len() ==> self.entries()[i].0.spec_mass() == Ok::<
                            Binary64,
                            ChemError,
                        >((#[trigger] terms@[i]).0) && terms@[i].1 == self.entries()[i].1
                },
                Err(e) => {
                    &&& e == ChemError::DataIntegrity
                    &&& exists|i: int|
                        0 <= i < self.entries().len() && (#[trigger] self.entries()[i]).0.spec_mass()
                            is Err
                },
            },
    {
        let mut terms: Vec<(Binary64, i32)> = Vec::new();
        let mut i: usize = 0;
        while i < self.entries.len()
            invariant
                i <= self.entries@.len(),
                terms@.len() == i,
                forall|j: int|
                    0 <= j < i ==> self.entries@[j].0.spec_mass() == Ok::<Binary64, ChemError>(
                        (#[trigger] terms@[j]).0,
                    ) && terms@[j].1 == self.entries@[j].1,
            decreases self.entries@.len() - i,
        {
            let (spec, count) = self.entries[i];
            match spec.mass() {
                Ok(mass) => {
                    terms.push((mass, count));
                },
                Err(e) => {
                    assert(self.entries@[i as int].0.spec_mass() is Err);
                    return Err(e);
                },
            }
            i += 1;
        }
        Ok(terms)
    }

    /// The number of entries.
    pub fn len(&self) -> (r: usize)
        ensures
            r == self.entries().len(),
            r == self@.dom().len(),
    {
        proof {
            use_type_invariant(self);
            lemma_counts_len(self.entries@);
        }
        self.entries.len()
    }

    /// The entries, in the order in which their keys first came. No two are
    /// about the same key.
    pub fn iter(&self) -> (r: &Vec<(ElementSpecification<'a>, i32)>)
        ensures
            r@ == self.entries(),
            distinct_keys(r@),
    {
        proof {
            use_type_invariant(self);
        }
        &self.entries
    }

    /// The stored mass, if one was stored since the counts last changed.
    pub fn cached_mass(&self) -> (r: Option<Binary64>)
        ensures
            r == self.cached(),
    {
        self.mass_cache
    }

    /// The mass to report where the sum of the mass terms is `computed`:
    /// the stored mass where there is one, else `computed`, which is not
    /// stored.
    pub fn mass(&self, computed: Binary64) -> (r: Binary64)
        ensures
            r == match self.cached() {
                Some(stored) => stored,
                None => computed,
            },
    {
        match self.mass_cache {
            Some(stored) => stored,
            None => computed,
        }
    }

    /// The mass to report where the sum of the mass terms is `computed`:
    /// the stored mass where there is one, else `computed`, which is then
    /// stored. Either way the mass reported is the mass stored afterwards,
    /// so a second call reports it again.
    pub fn fmass(&mut self, computed: Binary64) -> (r: Binary64)
        ensures
            r == match old(self).cached() {
                Some(stored) => stored,
                None => computed,
            },
            final(self).cached() == Some(r),
            final(self).entries() == old(self).entries(),
    {
        proof {
            use_type_invariant(&*self);
        }
        match self.mass_cache {
            Some(stored) => stored,
            None => {
                self.mass_cache = Some(computed);
                computed
            },
        }
    }
}

impl<'a> Clone for ChemicalComposition<'a> {
    /// An independent composition with the same entries and stored mass.
    fn clone(&self) -> (r: ChemicalComposition<'a>)
        ensures
            r.entries() == self.entries(),
            r.cached() == self.cached(),
    {
        proof {
            use_type_invariant(self);
        }
        let mut entries: Vec<(ElementSpecification<'a>, i32)> = Vec::new();
        let mut i: usize = 0;
        while i < self.entries.len()
            invariant
                i <= self.entries@.len(),
                entries@ == self.entries@.take(i as int),
            decreases self.entries@.len() - i,
        {
            entries.push(self.entries[i]);
            assert(entries@ =~= self.entries@.take(i + 1));
            i += 1;
        }
        assert(entries@ =~= self.entries@);
        ChemicalComposition { entries, mass_cache: self.mass_cache }
    }
}

impl<'a> Default for ChemicalComposition<'a> {
    fn default() -> (r: ChemicalComposition<'a>)
        ensures
            r.entries() == Seq::<(ElementSpecification<'a>, i32)>::empty(),
            r.cached() is None,
    {
        ChemicalComposition::new()
    }
}

impl<'a> PartialEq for ChemicalComposition<'a> {
    /// Two compositions are equal when they have the same keys with the
    /// same counts. A count of zero is a count.
    fn eq(&self, other: &ChemicalComposition<'a>) -> (r: bool) {
        let r = self.is_within(other) && other.is_within(self);
        assert(r == (self@ =~= other@));
        r
    }
}

impl<'a> vstd::std_specs::cmp::PartialEqSpecImpl for ChemicalComposition<'a> {
    open spec fn obeys_eq_spec() -> bool {
        true
    }

    open spec fn eq_spec(&self, other: &ChemicalComposition<'a>) -> bool {
        self@ =~= other@
    }
}

impl<'a> core::ops::Index<&ElementSpecification<'a>> for ChemicalComposition<'a> {
    type Output = i32;

    /// The count of a specification that the composition has an entry for.
    fn index(&self, spec: &ElementSpecification<'a>) -> (r: &i32)
        ensures
            *r == self@[spec@],
    {
        proof {
            use_type_invariant(self);
        }
        match self.position(spec) {
            Some(i) => {
                proof {
                    lemma_position_of(self.entries@, i as int);
                }
                &self.entries[i].1
            },
            None => {
                assert(false);
                &0
            },
        }
    }
}

impl<'a> vstd::std_specs::core::IndexSpecImpl<&ElementSpecification<'a>> for ChemicalComposition<'a> {
    open spec fn index_req(&self, spec: &&ElementSpecification<'a>) -> bool {
        self@.contains_key(spec@)
    }
}

impl<'a> core::ops::Add<&ChemicalComposition<'a>> for &ChemicalComposition<'a> {
    type Output = ChemicalComposition<'a>;

    /// The composition with the counts of both, added key by key.
    fn add(self, other: &ChemicalComposition<'a>) -> (r: ChemicalComposition<'a>)
        ensures
            r@ == sum_counts(self@, other@),
            r.entries() == accumulate(self.entries(), other.entries(), false),
            r.cached() is None,
    {
        let mut r = self.clone();
        assert(r@ == self@);
        r._add_from(other);
        r
    }
}

impl<'a> vstd::std_specs::ops::AddSpecImpl<&ChemicalComposition<'a>> for &ChemicalComposition<'a> {
    /// The sum is a new value, which `add` states by its own `ensures`.
    open spec fn obeys_add_spec() -> bool {
        false
    }

    open spec fn add_req(self, other: &ChemicalComposition<'a>) -> bool {
        forall|key: SpecKey| #[trigger]
            other@.contains_key(key) ==> fits_i32(count_of(self@, key) + other@[key])
    }

    open spec fn add_spec(self, other: &ChemicalComposition<'a>) -> ChemicalComposition<'a> {
        *self
    }
}

impl<'a> core::ops::Sub<&ChemicalComposition<'a>> for &ChemicalComposition<'a> {
    type Output = ChemicalComposition<'a>;

    /// The composition with the counts of `other` taken from those of
    /// `self`, key by key.
    fn sub(self, other: &ChemicalComposition<'a>) -> (r: ChemicalComposition<'a>)
        ensures
            r@ == difference_counts(self@, other@),
            r.entries() == accumulate(self.entries(), other.entries(), true),
            r.cached() is None,
    {
        let mut r = self.clone();
        assert(r@ == self@);
        r._sub_from(other);
        r
    }
}

impl<'a> vstd::std_specs::ops::SubSpecImpl<&ChemicalComposition<'a>> for &ChemicalComposition<'a> {
    /// The difference is a new value, which `sub` states by its own
    /// `ensures`.
    open spec fn obeys_sub_spec() -> bool {
        false
    }

    open spec fn sub_req(self, other: &ChemicalComposition<'a>) -> bool {
        forall|key: SpecKey| #[trigger]
            other@.contains_key(key) ==> fits_i32(count_of(self@, key) - other@[key])
    }

    open spec fn sub_spec(self, other: &ChemicalComposition<'a>) -> ChemicalComposition<'a> {
        *self
    }
}

impl<'a> core::ops::Mul<i32> for &ChemicalComposition<'a> {
    type Output = ChemicalComposition<'a>;

    /// The composition with every count multiplied by `factor`.
    fn mul(self, factor: i32) -> (r: ChemicalComposition<'a>)
        ensures
            r@ == scale_counts(self@, factor as int),
            r.entries() == scaled(self.entries(), factor),
            r.cached() is None,
    {
        let mut r = self.clone();
        assert(r@ == self@);
        r._mul_by(factor);
        r
    }
}

impl<'a> vstd::std_specs::ops::MulSpecImpl<i32> for &ChemicalComposition<'a> {
    /// The product is a new value, which `mul` states by its own `ensures`.
    open spec fn obeys_mul_spec() -> bool {
        false
    }

    open spec fn mul_req(self, factor: i32) -> bool {
        forall|key: SpecKey| #[trigger]
            self@.contains_key(key) ==> fits_i32(self@[key] * factor)
    }

    open spec fn mul_spec(self, factor: i32) -> ChemicalComposition<'a> {
        *self
    }
}

impl<'a> core::ops::AddAssign<&ChemicalComposition<'a>> for ChemicalComposition<'a> {
    fn add_assign(&mut self, other: &ChemicalComposition<'a>)
        requires
            forall|key: SpecKey| #[trigger]
                other@.contains_key(key) ==> fits_i32(count_of(old(self)@, key) + other@[key]),
        ensures
            final(self)@ == sum_counts(old(self)@, other@),
            final(self).entries() == accumulate(old(self).entries(), other.entries(), false),
            final(self).cached() is None,
    {
        self._add_from(other);
    }
}

impl<'a> core::ops::SubAssign<&ChemicalComposition<'a>> for ChemicalComposition<'a> {
    fn sub_assign(&mut self, other: &ChemicalComposition<'a>)
        requires
            forall|key: SpecKey| #[trigger]
                other@.contains_key(key) ==> fits_i32(count_of(old(self)@, key) - other@[key]),
        ensures
            final(self)@ == difference_counts(old(self)@, other@),
            final(self).entries() == accumulate(old(self).entries(), other.entries(), true),
            final(self).cached() is None,
    {
        self._sub_from(other);
    }
}

impl<'a> core::ops::MulAssign<i32> for ChemicalComposition<'a> {
    fn mul_assign(&mut self, factor: i32)
        requires
            forall|key: SpecKey| #[trigger]
                old(self)@.contains_key(key) ==> fits_i32(old(self)@[key] * factor),
        ensures
            final(self)@ == scale_counts(old(self)@, factor as int),
            final(self).entries() == scaled(old(self).entries(), factor),
            final(self).cached() is None,
    {
        self._mul_by(factor);
    }
}

} // verus!
