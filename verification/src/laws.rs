//! What holds of compositions whatever they contain.

use crate::composition::ChemicalComposition;
use crate::counts::{count_of, difference_counts, scale_counts, sum_counts};
use crate::error::ChemError;
use crate::specification::{parse_text, ElementSpecification, SpecKey};
use crate::text::{
    decimal_digits, is_digit, lemma_decimal_digits_read_back, lemma_find_first, number_in,
};
use vstd::prelude::*;

verus! {

/// Adding a composition and taking it away again leaves the count of every
/// specification as it was. The result may have entries that `a` lacks, with
/// count zero; it has the very counts of `a` where `a` has an entry for
/// every key of `b`.
pub proof fn lemma_add_then_sub<'a>(a: ChemicalComposition<'a>, b: ChemicalComposition<'a>)
    ensures
        forall|key: SpecKey|
            count_of(difference_counts(sum_counts(a@, b@), b@), key) == count_of(a@, key),
        b@.dom().subset_of(a@.dom()) ==> difference_counts(sum_counts(a@, b@), b@) == a@,
{
    let back = difference_counts(sum_counts(a@, b@), b@);
    assert forall|key: SpecKey| count_of(back, key) == count_of(a@, key) by {
        assert(count_of(sum_counts(a@, b@), key) == count_of(a@, key) + count_of(b@, key));
    }
    if b@.dom().subset_of(a@.dom()) {
        assert forall|key: SpecKey| back.contains_key(key) == a@.contains_key(key) by {
            if b@.contains_key(key) {
                assert(b@.dom().contains(key));
                assert(a@.dom().contains(key));
            }
        }
        assert forall|key: SpecKey| back.contains_key(key) implies back[key] == a@[key] by {
            assert(count_of(back, key) == count_of(a@, key));
        }
        assert(back =~= a@);
    }
}

/// Multiplying a composition by a number multiplies the count of every
/// specification by it, and gives no specification an entry that had none.
pub proof fn lemma_scale<'a>(
    a: ChemicalComposition<'a>,
    factor: int,
    spec: ElementSpecification<'a>,
)
    ensures
        count_of(scale_counts(a@, factor), spec@) == count_of(a@, spec@) * factor,
        scale_counts(a@, factor).contains_key(spec@) == a@.contains_key(spec@),
{
    if !a@.contains_key(spec@) {
        assert(0 * factor == 0) by (nonlinear_arith);
    }
}

/// A specification without an entry counts as zero, as one with the count
/// zero does, and yet the composition that has the zero entry is another
/// composition.
pub proof fn lemma_zero_entry<'a>(a: ChemicalComposition<'a>, spec: ElementSpecification<'a>)
    requires
        !a@.contains_key(spec@),
    ensures
        count_of(a@, spec@) == 0,
        count_of(a@.insert(spec@, 0), spec@) == 0,
        a@.insert(spec@, 0) != a@,
{
    assert(a@.insert(spec@, 0).contains_key(spec@));
}

/// The canonical text of a specification reads back as its symbol and its
/// isotope number, where the symbol is known and holds no `[`.
pub proof fn lemma_text_reads_back<'a>(spec: ElementSpecification<'a>, symbols: Set<Seq<char>>)
    requires
        symbols.contains(spec.element.symbol@),
        forall|i: int| 0 <= i < spec.element.symbol@.len() ==> spec.element.symbol@[i] != '[',
    ensures
        parse_text(symbols, spec.text()) == Ok::<(Seq<char>, u16), ChemError>(
            (spec.element.symbol@, spec.isotope),
        ),
{
    let symbol = spec.element.symbol@;
    let text = spec.text();
    let open = symbol.len() as int;
    if spec.isotope == 0 {
        lemma_find_first(text, '[', 0, open);
    } else {
        let digits = decimal_digits(spec.isotope as nat);
        let close = open + 1 + digits.len();
        lemma_decimal_digits_read_back(spec.isotope as nat);
        assert(text.len() == close + 1);
        assert forall|i: int| 0 <= i < open implies text[i] != '[' by {
            assert(text[i] == symbol[i]);
        }
        assert(text[open] == '[');
        lemma_find_first(text, '[', 0, open);
        assert forall|i: int| open + 1 <= i < close implies text[i] != ']' by {
            assert(text[i] == digits[i - open - 1]);
            assert(is_digit(digits[i - open - 1]));
        }
        assert(text[close] == ']');
        lemma_find_first(text, ']', open + 1, close);
        assert(text.subrange(0, open) =~= symbol);
        assert(text.subrange(open + 1, close) =~= digits);
        assert(number_in(digits, 0xffff) == Some(spec.isotope as u64));
    }
}

} // verus!
