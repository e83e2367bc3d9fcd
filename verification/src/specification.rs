//! Element specifications: an element together with an isotope number.

use crate::binary64::Binary64;
use crate::element::{Element, ElementId, PeriodicTable};
use crate::error::ChemError;
use crate::text::{decimal_digits, find, find_from, number_in, push_decimal_digits, read_number, to_chars};
use vstd::prelude::*;
use vstd::string::*;

verus! {

/// What makes two specifications the same: the element and the isotope
/// number.
pub struct SpecKey {
    pub element: ElementId,
    pub isotope: u16,
}

/// An element and an isotope number. The number zero stands for the natural
/// mixture, whose mass is that of the most abundant isotope.
#[derive(Clone, Copy, Debug)]
pub struct ElementSpecification<'a> {
    pub element: &'a Element,
    pub isotope: u16,
}

impl<'a> View for ElementSpecification<'a> {
    type V = SpecKey;

    open spec fn view(&self) -> SpecKey {
        SpecKey { element: self.element.id(), isotope: self.isotope }
    }
}

/// What a specification text reads as, over the symbols that the table
/// knows: the symbol and the isotope number, or the error.
///
/// The symbol is the text before the first `[`, or the whole text where
/// there is none. The isotope digits run from behind that `[` to the next
/// `]`; what follows the `]` is not looked at. No digits, like no brackets,
/// give the isotope number zero.
pub open spec fn parse_text(symbols: Set<Seq<char>>, s: Seq<char>) -> Result<
    (Seq<char>, u16),
    ChemError,
> {
    let open = find_from(s, '[', 0);
    if open == s.len() {
        if symbols.contains(s) {
            Ok((s, 0u16))
        } else {
            Err(ChemError::ElementNotFound)
        }
    } else {
        let close = find_from(s, ']', open + 1);
        if close == s.len() {
            Err(ChemError::UnclosedBracket)
        } else if !symbols.contains(s.subrange(0, open)) {
            Err(ChemError::ElementNotFound)
        } else {
            match number_in(s.subrange(open + 1, close), 0xffff) {
                Some(n) => Ok((s.subrange(0, open), n as u16)),
                None => Err(ChemError::BadDigitRun),
            }
        }
    }
}

impl<'a> ElementSpecification<'a> {
    /// The specification of `isotope` of `element`.
    pub fn new(element: &'a Element, isotope: u16) -> (r: ElementSpecification<'a>)
        ensures
            r.element == element,
            r.isotope == isotope,
    {
        ElementSpecification { element, isotope }
    }

    /// The canonical text: the symbol, followed by the isotope number in
    /// square brackets unless that is zero.
    pub open spec fn text(&self) -> Seq<char> {
        if self.isotope == 0 {
            self.element.symbol@
        } else {
            self.element.symbol@ + seq!['['] + decimal_digits(self.isotope as nat) + seq![']']
        }
    }

    /// Appends the canonical text to `out`.
    pub fn push_text(&self, out: &mut String)
        ensures
            final(out)@ == old(out)@ + self.text(),
    {
        out.append(self.element.symbol.as_str());
        if self.isotope != 0 {
            out.push('[');
            push_decimal_digits(out, self.isotope as u64);
            out.push(']');
        }
        assert(out@ =~= old(out)@ + self.text());
    }

    /// The canonical text.
    pub fn to_string(&self) -> (r: String)
        ensures
            r@ == self.text(),
    {
        let mut out = String::new();
        self.push_text(&mut out);
        assert(out@ =~= self.text());
        out
    }

    /// The text of [`Self::display`]: the type's name, then symbol and
    /// isotope number in round brackets.
    pub open spec fn display_text(&self) -> Seq<char> {
        "ElementSpecification("@ + self.element.symbol@ + ", "@ + decimal_digits(
            self.isotope as nat,
        ) + ")"@
    }

    /// A description for logs and messages.
    pub fn display(&self) -> (r: String)
        ensures
            r@ == self.display_text(),
    {
        let mut out = String::from_str("ElementSpecification(");
        out.append(self.element.symbol.as_str());
        out.append(", ");
        push_decimal_digits(&mut out, self.isotope as u64);
        out.append(")");
        out
    }

    /// The mass of one atom: that of the element's most abundant isotope
    /// where the isotope number is zero, else that of the numbered isotope.
    pub open spec fn spec_mass(&self) -> Result<Binary64, ChemError> {
        if self.isotope == 0 {
            self.element.spec_mass()
        } else {
            self.element.spec_isotope_mass(self.isotope)
        }
    }

    /// The mass of one atom, or `DataIntegrity` where the element does not
    /// catalog the isotope.
    #[verifier::when_used_as_spec(spec_mass)]
    pub fn mass(&self) -> (r: Result<Binary64, ChemError>)
        ensures
            r == self.spec_mass(),
    {
        if self.isotope == 0 {
            self.element.mass()
        } else {
            self.element.isotope_mass(self.isotope)
        }
    }

    /// Reads a specification: a symbol of `table`, optionally followed by an
    /// isotope number in square brackets.
    pub fn parse(table: &'a PeriodicTable, text: &str) -> (r: Result<
        ElementSpecification<'a>,
        ChemError,
    >)
        ensures
            match r {
                Ok(spec) => {
                    &&& parse_text(table@.dom(), text@) == Ok::<(Seq<char>, u16), ChemError>(
                        (spec.element.symbol@, spec.isotope),
                    )
                    &&& table@.contains_key(spec.element.symbol@)
                    &&& *spec.element == table@[spec.element.symbol@]
                },
                Err(e) => parse_text(table@.dom(), text@) == Err::<(Seq<char>, u16), ChemError>(e),
            },
    {
        let chars = to_chars(text);
        let n: usize = chars.len();
        let open: usize = find(&chars, '[', 0);
        if open == n {
            return match table.lookup(text) {
                Ok(element) => Ok(ElementSpecification { element, isotope: 0 }),
                Err(e) => Err(e),
            };
        }
        let close: usize = find(&chars, ']', open + 1);
        if close == n {
            return Err(ChemError::UnclosedBracket);
        }
        let element = match table.lookup(text.substring_char(0, open)) {
            Ok(element) => element,
            Err(e) => {
                return Err(e);
            },
        };
        match read_number(&chars, open + 1, close, 0xffff) {
            Some(number) => Ok(ElementSpecification { element, isotope: number as u16 }),
            None => Err(ChemError::BadDigitRun),
        }
    }
}

impl<'a> PartialEq for ElementSpecification<'a> {
    /// Two specifications are equal when element and isotope number agree.
    fn eq(&self, other: &ElementSpecification<'a>) -> (r: bool) {
        self.isotope == other.isotope && *self.element == *other.element
    }
}

impl<'a> vstd::std_specs::cmp::PartialEqSpecImpl for ElementSpecification<'a> {
    open spec fn obeys_eq_spec() -> bool {
        true
    }

    open spec fn eq_spec(&self, other: &ElementSpecification<'a>) -> bool {
        self@ == other@
    }
}

impl<'a> Eq for ElementSpecification<'a> {

}

impl<'a> core::hash::Hash for ElementSpecification<'a> {
    /// Feeds the symbol and the isotope number to the hasher, so that equal
    /// specifications hash alike and the isotopes of an element apart.
    #[verifier::external_body]
    fn hash<H: core::hash::Hasher>(&self, state: &mut H) {
        (self.element.symbol.as_str(), self.isotope).hash(state);
    }
}

} // verus!
