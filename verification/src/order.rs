//! The order in which a composition is written out, and its text.

use crate::specification::ElementSpecification;
use crate::text::{decimal, push_decimal};
use vstd::prelude::*;
use vstd::seq_lib::to_multiset_insert;
use vstd::string::*;

verus! {

/// The class of a symbol in the written order: carbon stands before
/// hydrogen, and hydrogen before every other element.
pub open spec fn display_class(symbol: Seq<char>) -> int {
    if symbol == seq!['C'] {
        2
    } else if symbol == seq!['H'] {
        1
    } else {
        0
    }
}

/// Whether `a` must be written before `b`: its class is higher, or the
/// classes agree and the most abundant mass of its element is greater.
pub open spec fn outranks<'a>(a: ElementSpecification<'a>, b: ElementSpecification<'a>) -> bool {
    let class_a = display_class(a.element.symbol@);
    let class_b = display_class(b.element.symbol@);
    class_a > class_b || (class_a == class_b
        && a.element.most_abundant_mass.spec_order_key()
        > b.element.most_abundant_mass.spec_order_key())
}

/// Whether no entry of `entries` stands behind one that it outranks.
pub open spec fn in_written_order<'a>(entries: Seq<(ElementSpecification<'a>, i32)>) -> bool {
    forall|i: int, j: int|
        0 <= i < j < entries.len() ==> !outranks((#[trigger] entries[j]).0, (#[trigger] entries[i]).0)
}

/// The position of the first entry at or after `from` that `spec` outranks,
/// or the length of `entries` where it outranks none.
pub open spec fn first_outranked<'a>(
    entries: Seq<(ElementSpecification<'a>, i32)>,
    spec: ElementSpecification<'a>,
    from: int,
) -> int
    decreases entries.len() - from,
{
    if from >= entries.len() {
        entries.len() as int
    } else if outranks(spec, entries[from].0) {
        from
    } else {
        first_outranked(entries, spec, from + 1)
    }
}

/// The written order of `entries`: each entry before those that it
/// outranks, and entries of which neither outranks the other in the order
/// in which `entries` has them.
pub open spec fn written_order<'a>(entries: Seq<(ElementSpecification<'a>, i32)>) -> Seq<
    (ElementSpecification<'a>, i32),
>
    decreases entries.len(),
{
    if entries.len() == 0 {
        Seq::empty()
    } else {
        let sorted = written_order(entries.drop_last());
        sorted.insert(first_outranked(sorted, entries.last().0, 0), entries.last())
    }
}

/// The text of one entry: the specification, then the count.
pub open spec fn token<'a>(entry: (ElementSpecification<'a>, i32)) -> Seq<char> {
    entry.0.text() + decimal(entry.1 as int)
}

/// The texts of the entries, one after the other with nothing between.
pub open spec fn render<'a>(entries: Seq<(ElementSpecification<'a>, i32)>) -> Seq<char>
    decreases entries.len(),
{
    if entries.len() == 0 {
        Seq::empty()
    } else {
        render(entries.drop_last()) + token(entries.last())
    }
}

/// [`first_outranked`] lands on an entry that `spec` outranks, or on the
/// end, and passes over none that it outranks.
pub proof fn lemma_first_outranked<'a>(
    entries: Seq<(ElementSpecification<'a>, i32)>,
    spec: ElementSpecification<'a>,
    from: int,
)
    requires
        0 <= from <= entries.len(),
    ensures
        from <= first_outranked(entries, spec, from) <= entries.len(),
        first_outranked(entries, spec, from) < entries.len() ==> outranks(
            spec,
            entries[first_outranked(entries, spec, from)].0,
        ),
        forall|i: int|
            from <= i < first_outranked(entries, spec, from) ==> !outranks(
                spec,
                (#[trigger] entries[i]).0,
            ),
    decreases entries.len() - from,
{
    if from < entries.len() && !outranks(spec, entries[from].0) {
        lemma_first_outranked(entries, spec, from + 1);
    }
}

/// The written order holds the same entries, as often, and is in written
/// order.
pub proof fn lemma_written_order<'a>(entries: Seq<(ElementSpecification<'a>, i32)>)
    ensures
        written_order(entries).len() == entries.len(),
        written_order(entries).to_multiset() == entries.to_multiset(),
        in_written_order(written_order(entries)),
    decreases entries.len(),
{
    if entries.len() == 0 {
        assert(entries =~= Seq::empty());
    } else {
        let front = entries.drop_last();
        let entry = entries.last();
        let sorted = written_order(front);
        let p = first_outranked(sorted, entry.0, 0);
        let after = sorted.insert(p, entry);
        lemma_written_order(front);
        lemma_first_outranked(sorted, entry.0, 0);
        to_multiset_insert(sorted, p, entry);
        vstd::seq_lib::to_multiset_build(front, entry);
        assert(front.push(entry) =~= entries);
        assert forall|i: int, j: int| 0 <= i < j < after.len() implies !outranks(
            (#[trigger] after[j]).0,
            (#[trigger] after[i]).0,
        ) by {
            if j < p {
                assert(after[i] == sorted[i] && after[j] == sorted[j]);
            } else if j == p {
                assert(after[i] == sorted[i]);
            } else if i < p {
                assert(after[i] == sorted[i] && after[j] == sorted[j - 1]);
            } else if i == p {
                assert(after[j] == sorted[j - 1]);
                if p < j - 1 {
                    assert(!outranks(sorted[j - 1].0, sorted[p].0));
                }
            } else {
                assert(after[i] == sorted[i - 1] && after[j] == sorted[j - 1]);
            }
        }
    }
}

/// Whether neither of `a` and `b` must be written before the other.
pub open spec fn same_rank<'a>(a: ElementSpecification<'a>, b: ElementSpecification<'a>) -> bool {
    !outranks(a, b) && !outranks(b, a)
}

/// The test for the entries of the rank of `spec`.
pub open spec fn of_rank<'a>(spec: ElementSpecification<'a>) -> spec_fn(
    (ElementSpecification<'a>, i32),
) -> bool {
    |entry: (ElementSpecification<'a>, i32)| same_rank(entry.0, spec)
}

/// Where no entry passes a test, filtering leaves nothing.
proof fn lemma_filter_none<'a>(
    entries: Seq<(ElementSpecification<'a>, i32)>,
    test: spec_fn((ElementSpecification<'a>, i32)) -> bool,
)
    requires
        forall|i: int| 0 <= i < entries.len() ==> !test(#[trigger] entries[i]),
    ensures
        entries.filter(test) == Seq::<(ElementSpecification<'a>, i32)>::empty(),
    decreases entries.len(),
{
    reveal(Seq::filter);
    if entries.len() > 0 {
        let front = entries.drop_last();
        assert forall|i: int| 0 <= i < front.len() implies !test(#[trigger] front[i]) by {
            assert(front[i] == entries[i]);
        }
        lemma_filter_none(front, test);
    }
}

/// The entries of one rank stand in the written order as they stand in
/// `entries`. With [`lemma_written_order`] this settles the written order:
/// it is the one rearrangement that is in written order and keeps entries
/// of one rank in their order.
pub proof fn lemma_written_order_is_stable<'a>(
    entries: Seq<(ElementSpecification<'a>, i32)>,
    spec: ElementSpecification<'a>,
)
    ensures
        written_order(entries).filter(of_rank(spec)) == entries.filter(of_rank(spec)),
    decreases entries.len(),
{
    let test = of_rank(spec);
    if entries.len() == 0 {
        assert(written_order(entries) =~= entries);
    } else {
        let front = entries.drop_last();
        let entry = entries.last();
        let sorted = written_order(front);
        let p = first_outranked(sorted, entry.0, 0);
        let after = sorted.insert(p, entry);
        let before_p = sorted.subrange(0, p);
        let from_p = sorted.subrange(p, sorted.len() as int);
        lemma_written_order_is_stable(front, spec);
        lemma_written_order(front);
        lemma_first_outranked(sorted, entry.0, 0);
        assert(entries =~= front + seq![entry]);
        assert(sorted =~= before_p + from_p);
        assert(after =~= (before_p + seq![entry]) + from_p);
        Seq::filter_distributes_over_add(front, seq![entry], test);
        Seq::filter_distributes_over_add(before_p, from_p, test);
        Seq::filter_distributes_over_add(before_p, seq![entry], test);
        Seq::filter_distributes_over_add(before_p + seq![entry], from_p, test);
        if test(entry) {
            assert forall|i: int| 0 <= i < from_p.len() implies !test(#[trigger] from_p[i]) by {
                assert(from_p[i] == sorted[p + i]);
                if i > 0 {
                    assert(!outranks(sorted[p + i].0, sorted[p].0));
                }
            }
            lemma_filter_none(from_p, test);
            assert(before_p.filter(test) + seq![entry].filter(test) + Seq::empty()
                =~= before_p.filter(test) + Seq::empty() + seq![entry].filter(test));
        } else {
            assert forall|i: int| 0 <= i < seq![entry].len() implies !test(
                #[trigger] seq![entry][i],
            ) by {}
            lemma_filter_none(seq![entry], test);
            assert(before_p.filter(test) + Seq::empty() + from_p.filter(test)
                =~= before_p.filter(test) + from_p.filter(test));
            assert(front.filter(test) + Seq::empty() =~= front.filter(test));
        }
    }
}

/// Computes [`display_class`].
fn class_of(symbol: &str) -> (r: u8)
    ensures
        r == display_class(symbol@),
{
    if symbol.unicode_len() != 1 {
        return 0;
    }
    let c: char = symbol.get_char(0);
    assert(symbol@ =~= seq![c]);
    if c == 'C' {
        2
    } else if c == 'H' {
        assert(seq!['H'][0] != seq!['C'][0]);
        1
    } else {
        assert(seq![c][0] != seq!['C'][0]);
        assert(seq![c][0] != seq!['H'][0]);
        0
    }
}

/// Computes [`outranks`].
fn is_before<'a>(a: &ElementSpecification<'a>, b: &ElementSpecification<'a>) -> (r: bool)
    ensures
        r == outranks(*a, *b),
{
    let class_a: u8 = class_of(a.element.symbol.as_str());
    let class_b: u8 = class_of(b.element.symbol.as_str());
    class_a > class_b || (class_a == class_b && a.element.most_abundant_mass.order_key()
        > b.element.most_abundant_mass.order_key())
}

/// Computes [`written_order`].
pub fn sort_for_writing<'a>(entries: &Vec<(ElementSpecification<'a>, i32)>) -> (r: Vec<
    (ElementSpecification<'a>, i32),
>)
    ensures
        r@ == written_order(entries@),
{
    let mut sorted: Vec<(ElementSpecification<'a>, i32)> = Vec::new();
    let mut i: usize = 0;
    while i < entries.len()
        invariant
            i <= entries@.len(),
            sorted@ == written_order(entries@.take(i as int)),
        decreases entries@.len() - i,
    {
        let entry = entries[i];
        let mut p: usize = 0;
        while p < sorted.len() && !is_before(&entry.0, &sorted[p].0)
            invariant
                p <= sorted@.len(),
                first_outranked(sorted@, entry.0, p as int) == first_outranked(sorted@, entry.0, 0),
            decreases sorted@.len() - p,
        {
            p += 1;
        }
        proof {
            assert(entries@.take(i + 1).drop_last() =~= entries@.take(i as int));
        }
        sorted.insert(p, entry);
        i += 1;
    }
    assert(entries@.take(i as int) =~= entries@);
    sorted
}

/// Appends [`render`] of `entries` to `out`.
pub fn write_entries<'a>(entries: &Vec<(ElementSpecification<'a>, i32)>, out: &mut String)
    ensures
        final(out)@ == old(out)@ + render(entries@),
{
    let mut i: usize = 0;
    while i < entries.len()
        invariant
            i <= entries@.len(),
            out@ == old(out)@ + render(entries@.take(i as int)),
        decreases entries@.len() - i,
    {
        let (spec, count) = entries[i];
        spec.push_text(out);
        push_decimal(out, count);
        proof {
            assert(entries@.take(i + 1).drop_last() =~= entries@.take(i as int));
            assert(out@ =~= old(out)@ + render(entries@.take(i + 1)));
        }
        i += 1;
    }
    assert(entries@.take(i as int) =~= entries@);
}

} // verus!
