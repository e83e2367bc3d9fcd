//! Counts by key: the mathematics of compositions.
//!
//! A composition is a sequence of entries, each a specification with a
//! count, in which no key occurs twice. Its meaning is the map from keys to
//! counts. This module defines both, the operations on them, and proves
//! that the operations on entries do to the map what their names say.

use crate::specification::{ElementSpecification, SpecKey};
use vstd::prelude::*;

verus! {

/// The count that `counts` gives to `key`: zero where it has none.
pub open spec fn count_of(counts: Map<SpecKey, int>, key: SpecKey) -> int {
    if counts.contains_key(key) {
        counts[key]
    } else {
        0
    }
}

/// Whether `n` is a 32-bit signed number.
pub open spec fn fits_i32(n: int) -> bool {
    i32::MIN <= n <= i32::MAX
}

/// Whether some entry of `entries` is about `key`.
pub open spec fn has_key<'a>(entries: Seq<(ElementSpecification<'a>, i32)>, key: SpecKey) -> bool {
    exists|i: int| 0 <= i < entries.len() && (#[trigger] entries[i]).0@ == key
}

/// The position of an entry about `key`, where there is one.
pub open spec fn position_of<'a>(
    entries: Seq<(ElementSpecification<'a>, i32)>,
    key: SpecKey,
) -> int {
    choose|i: int| 0 <= i < entries.len() && (#[trigger] entries[i]).0@ == key
}

/// Whether no two entries of `entries` are about the same key.
pub open spec fn distinct_keys<'a>(entries: Seq<(ElementSpecification<'a>, i32)>) -> bool {
    forall|i: int, j: int|
        0 <= i < j < entries.len() ==> (#[trigger] entries[i]).0@ != (#[trigger] entries[j]).0@
}

/// The counts that `entries` hold, by key.
pub open spec fn counts_of<'a>(entries: Seq<(ElementSpecification<'a>, i32)>) -> Map<
    SpecKey,
    int,
> {
    Map::new(
        |key: SpecKey| has_key(entries, key),
        |key: SpecKey| entries[position_of(entries, key)].1 as int,
    )
}

/// `entries` with the count of `spec` set to `count`: in place where an
/// entry is about the same key, whose specification stays; else at the end.
pub open spec fn upsert<'a>(
    entries: Seq<(ElementSpecification<'a>, i32)>,
    spec: ElementSpecification<'a>,
    count: i32,
) -> Seq<(ElementSpecification<'a>, i32)> {
    if has_key(entries, spec@) {
        let i = position_of(entries, spec@);
        entries.update(i, (entries[i].0, count))
    } else {
        entries.push((spec, count))
    }
}

/// The counts of `a` and `b` added key by key. A key that only one of them
/// has keeps its count.
pub open spec fn sum_counts(a: Map<SpecKey, int>, b: Map<SpecKey, int>) -> Map<SpecKey, int> {
    Map::new(
        |key: SpecKey| a.contains_key(key) || b.contains_key(key),
        |key: SpecKey| count_of(a, key) + count_of(b, key),
    )
}

/// The counts of `b` taken from those of `a` key by key. A key that only
/// `b` has gets the negated count.
pub open spec fn difference_counts(a: Map<SpecKey, int>, b: Map<SpecKey, int>) -> Map<
    SpecKey,
    int,
> {
    Map::new(
        |key: SpecKey| a.contains_key(key) || b.contains_key(key),
        |key: SpecKey| count_of(a, key) - count_of(b, key),
    )
}

/// Each count of `a` multiplied by `factor`. No key comes or goes.
pub open spec fn scale_counts(a: Map<SpecKey, int>, factor: int) -> Map<SpecKey, int> {
    Map::new(|key: SpecKey| a.contains_key(key), |key: SpecKey| a[key] * factor)
}

/// `delta`, negated where `negate` says so.
pub open spec fn signed(delta: int, negate: bool) -> int {
    if negate {
        -delta
    } else {
        delta
    }
}

/// `start` after each pair of `pairs`, in order, was added to (or, with
/// `negate`, taken from) the count of its key.
pub open spec fn accumulate<'a>(
    start: Seq<(ElementSpecification<'a>, i32)>,
    pairs: Seq<(ElementSpecification<'a>, i32)>,
    negate: bool,
) -> Seq<(ElementSpecification<'a>, i32)>
    decreases pairs.len(),
{
    if pairs.len() == 0 {
        start
    } else {
        let before = accumulate(start, pairs.drop_last(), negate);
        let (spec, delta) = pairs.last();
        upsert(
            before,
            spec,
            (count_of(counts_of(before), spec@) + signed(delta as int, negate)) as i32,
        )
    }
}

/// Whether every count on the way to [`accumulate`] is a 32-bit signed
/// number.
pub open spec fn accumulate_fits<'a>(
    start: Seq<(ElementSpecification<'a>, i32)>,
    pairs: Seq<(ElementSpecification<'a>, i32)>,
    negate: bool,
) -> bool
    decreases pairs.len(),
{
    pairs.len() == 0 || {
        let before = accumulate(start, pairs.drop_last(), negate);
        let (spec, delta) = pairs.last();
        &&& accumulate_fits(start, pairs.drop_last(), negate)
        &&& fits_i32(count_of(counts_of(before), spec@) + signed(delta as int, negate))
    }
}

/// The sum of the counts of the pairs of `pairs` that are about `key`.
pub open spec fn total_of<'a>(pairs: Seq<(ElementSpecification<'a>, i32)>, key: SpecKey) -> int
    decreases pairs.len(),
{
    if pairs.len() == 0 {
        0
    } else if pairs.last().0@ == key {
        total_of(pairs.drop_last(), key) + pairs.last().1
    } else {
        total_of(pairs.drop_last(), key)
    }
}

/// `entries` with each count multiplied by `factor`.
pub open spec fn scaled<'a>(entries: Seq<(ElementSpecification<'a>, i32)>, factor: i32) -> Seq<
    (ElementSpecification<'a>, i32),
> {
    Seq::new(entries.len(), |i: int| (entries[i].0, (entries[i].1 * factor) as i32))
}

/// With distinct keys, the entry about a key is where [`position_of`] says.
pub proof fn lemma_position_of<'a>(entries: Seq<(ElementSpecification<'a>, i32)>, i: int)
    requires
        distinct_keys(entries),
        0 <= i < entries.len(),
    ensures
        has_key(entries, entries[i].0@),
        position_of(entries, entries[i].0@) == i,
        counts_of(entries).contains_key(entries[i].0@),
        counts_of(entries)[entries[i].0@] == entries[i].1,
{
    let p = position_of(entries, entries[i].0@);
    if p < i {
        assert(entries[p].0@ != entries[i].0@);
    } else if i < p {
        assert(entries[i].0@ != entries[p].0@);
    }
}

/// [`upsert`] keeps the keys distinct and changes the counts as an insertion
/// into the map does.
pub proof fn lemma_upsert<'a>(
    entries: Seq<(ElementSpecification<'a>, i32)>,
    spec: ElementSpecification<'a>,
    count: i32,
)
    requires
        distinct_keys(entries),
    ensures
        distinct_keys(upsert(entries, spec, count)),
        counts_of(upsert(entries, spec, count)) == counts_of(entries).insert(spec@, count as int),
{
    let after = upsert(entries, spec, count);
    if has_key(entries, spec@) {
        let i = position_of(entries, spec@);
        assert forall|a: int, b: int| 0 <= a < b < after.len() implies (#[trigger] after[a]).0@ != (
        #[trigger] after[b]).0@ by {
            assert(entries[a].0@ != entries[b].0@);
        }
        assert forall|key: SpecKey| has_key(after, key) <==> has_key(entries, key) by {
            if has_key(after, key) {
                let j = position_of(after, key);
                assert(entries[j].0@ == key);
            }
            if has_key(entries, key) {
                let j = position_of(entries, key);
                assert(after[j].0@ == key);
            }
        }
        assert forall|key: SpecKey| has_key(after, key) implies counts_of(after)[key] == (if key
            == spec@ {
            count as int
        } else {
            counts_of(entries)[key]
        }) by {
            let j = position_of(after, key);
            lemma_position_of(after, j);
            lemma_position_of(entries, j);
        }
        assert(counts_of(after) =~= counts_of(entries).insert(spec@, count as int));
    } else {
        let n = entries.len() as int;
        assert forall|a: int, b: int| 0 <= a < b < after.len() implies (#[trigger] after[a]).0@ != (
        #[trigger] after[b]).0@ by {
            if b < n {
                assert(entries[a].0@ != entries[b].0@);
            } else {
                assert(after[a] == entries[a]);
            }
        }
        assert(after[n].0@ == spec@);
        assert forall|key: SpecKey| has_key(after, key) <==> (has_key(entries, key) || key
            == spec@) by {
            if has_key(after, key) {
                let j = position_of(after, key);
                if j < n {
                    assert(entries[j].0@ == key);
                }
            }
            if has_key(entries, key) {
                let j = position_of(entries, key);
                assert(after[j].0@ == key);
            }
        }
        assert forall|key: SpecKey| has_key(after, key) implies counts_of(after)[key] == (if key
            == spec@ {
            count as int
        } else {
            counts_of(entries)[key]
        }) by {
            let j = position_of(after, key);
            lemma_position_of(after, j);
            if j < n {
                assert(after[j] == entries[j]);
                lemma_position_of(entries, j);
            }
        }
        assert(counts_of(after) =~= counts_of(entries).insert(spec@, count as int));
    }
}

/// With distinct keys there are as many keys as entries.
pub proof fn lemma_counts_len<'a>(entries: Seq<(ElementSpecification<'a>, i32)>)
    requires
        distinct_keys(entries),
    ensures
        counts_of(entries).dom().finite(),
        counts_of(entries).dom().len() == entries.len(),
    decreases entries.len(),
{
    if entries.len() == 0 {
        assert(counts_of(entries).dom() =~= Set::empty());
    } else {
        let front = entries.drop_last();
        let (spec, count) = entries.last();
        assert forall|a: int, b: int| 0 <= a < b < front.len() implies (#[trigger] front[a]).0@ != (
        #[trigger] front[b]).0@ by {
            assert(entries[a].0@ != entries[b].0@);
        }
        lemma_counts_len(front);
        if has_key(front, spec@) {
            let j = position_of(front, spec@);
            assert(entries[j].0@ != entries[entries.len() - 1].0@);
        }
        assert(upsert(front, spec, count) =~= entries);
        lemma_upsert(front, spec, count);
        assert(counts_of(entries).dom() =~= counts_of(front).dom().insert(spec@));
    }
}

/// Keys stay distinct when the last entry is dropped.
pub proof fn lemma_distinct_prefix<'a>(entries: Seq<(ElementSpecification<'a>, i32)>, k: int)
    requires
        distinct_keys(entries),
        0 <= k <= entries.len(),
    ensures
        distinct_keys(entries.take(k)),
        forall|key: SpecKey| has_key(entries.take(k), key) ==> has_key(entries, key),
{
    let front = entries.take(k);
    assert forall|a: int, b: int| 0 <= a < b < front.len() implies (#[trigger] front[a]).0@ != (
    #[trigger] front[b]).0@ by {
        assert(entries[a].0@ != entries[b].0@);
    }
    assert forall|key: SpecKey| has_key(front, key) implies has_key(entries, key) by {
        let j = position_of(front, key);
        assert(entries[j].0@ == key);
    }
}

/// Where every step fits, [`accumulate`] keeps the keys distinct, has the
/// keys of `start` and of `pairs`, and moves the count of each key by the
/// total of the pairs about it.
pub proof fn lemma_accumulate<'a>(
    start: Seq<(ElementSpecification<'a>, i32)>,
    pairs: Seq<(ElementSpecification<'a>, i32)>,
    negate: bool,
)
    requires
        distinct_keys(start),
        accumulate_fits(start, pairs, negate),
    ensures
        distinct_keys(accumulate(start, pairs, negate)),
        forall|key: SpecKey|
            has_key(accumulate(start, pairs, negate), key) <==> (has_key(start, key) || has_key(
                pairs,
                key,
            )),
        forall|key: SpecKey|
            count_of(counts_of(accumulate(start, pairs, negate)), key) == count_of(
                counts_of(start),
                key,
            ) + signed(total_of(pairs, key), negate),
    decreases pairs.len(),
{
    if pairs.len() > 0 {
        let front = pairs.drop_last();
        let before = accumulate(start, front, negate);
        let (spec, delta) = pairs.last();
        let count = (count_of(counts_of(before), spec@) + signed(delta as int, negate)) as i32;
        let after = accumulate(start, pairs, negate);
        lemma_accumulate(start, front, negate);
        lemma_upsert(before, spec, count);
        assert(pairs[pairs.len() - 1].0@ == spec@);
        assert forall|key: SpecKey| has_key(pairs, key) <==> (has_key(front, key) || key
            == spec@) by {
            if has_key(pairs, key) {
                let j = position_of(pairs, key);
                if j < front.len() {
                    assert(front[j].0@ == key);
                }
            }
            if has_key(front, key) {
                let j = position_of(front, key);
                assert(pairs[j].0@ == key);
            }
        }
        assert forall|key: SpecKey|
            has_key(after, key) <==> (has_key(start, key) || has_key(pairs, key)) by {
            assert(counts_of(after).contains_key(key) <==> counts_of(before).insert(
                spec@,
                count as int,
            ).contains_key(key));
        }
        assert forall|key: SpecKey|
            count_of(counts_of(after), key) == count_of(counts_of(start), key) + signed(
                total_of(pairs, key),
                negate,
            ) by {
            assert(count_of(counts_of(after), key) == count_of(
                counts_of(before).insert(spec@, count as int),
                key,
            ));
            assert(count_of(counts_of(before), key) == count_of(counts_of(start), key) + signed(
                total_of(front, key),
                negate,
            ));
        }
    }
}

/// Among pairs with distinct keys the total about a key is its count.
pub proof fn lemma_total_of_distinct<'a>(pairs: Seq<(ElementSpecification<'a>, i32)>, key: SpecKey)
    requires
        distinct_keys(pairs),
    ensures
        total_of(pairs, key) == count_of(counts_of(pairs), key),
    decreases pairs.len(),
{
    if pairs.len() > 0 {
        let front = pairs.drop_last();
        let n = front.len() as int;
        lemma_distinct_prefix(pairs, n);
        assert(pairs.take(n) =~= front);
        lemma_total_of_distinct(front, key);
        if pairs.last().0@ == key {
            lemma_position_of(pairs, n);
            if has_key(front, key) {
                let j = position_of(front, key);
                assert(pairs[j].0@ != pairs[n].0@);
            }
        } else {
            if has_key(pairs, key) {
                let j = position_of(pairs, key);
                lemma_position_of(pairs, j);
                assert(front[j].0@ == key);
                lemma_position_of(front, j);
            } else if has_key(front, key) {
                let j = position_of(front, key);
                assert(pairs[j].0@ == key);
            }
        }
    }
}

/// Pairs with distinct keys can be accumulated where each key's final count
/// fits: no count on the way differs from a final one.
pub proof fn lemma_accumulate_distinct<'a>(
    start: Seq<(ElementSpecification<'a>, i32)>,
    pairs: Seq<(ElementSpecification<'a>, i32)>,
    negate: bool,
)
    requires
        distinct_keys(start),
        distinct_keys(pairs),
        forall|key: SpecKey| #[trigger]
            counts_of(pairs).contains_key(key) ==> fits_i32(
                count_of(counts_of(start), key) + signed(counts_of(pairs)[key], negate),
            ),
    ensures
        accumulate_fits(start, pairs, negate),
    decreases pairs.len(),
{
    if pairs.len() > 0 {
        let front = pairs.drop_last();
        let n = front.len() as int;
        let (spec, delta) = pairs.last();
        lemma_distinct_prefix(pairs, n);
        assert(pairs.take(n) =~= front);
        assert forall|key: SpecKey| #[trigger] counts_of(front).contains_key(key) implies fits_i32(
            count_of(counts_of(start), key) + signed(counts_of(front)[key], negate),
        ) by {
            let j = position_of(front, key);
            lemma_position_of(front, j);
            assert(pairs[j] == front[j]);
            lemma_position_of(pairs, j);
            assert(counts_of(pairs).contains_key(key));
        }
        lemma_accumulate_distinct(start, front, negate);
        lemma_accumulate(start, front, negate);
        lemma_total_of_distinct(front, spec@);
        lemma_position_of(pairs, n);
        if has_key(front, spec@) {
            let j = position_of(front, spec@);
            assert(pairs[j].0@ != pairs[n].0@);
        }
        assert(counts_of(pairs).contains_key(spec@));
    }
}

/// For pairs with distinct keys: they can be accumulated exactly where each
/// key's final count fits, and then the counts are those of the sum, or of
/// the difference.
pub proof fn lemma_accumulate_counts<'a>(
    start: Seq<(ElementSpecification<'a>, i32)>,
    pairs: Seq<(ElementSpecification<'a>, i32)>,
    negate: bool,
)
    requires
        distinct_keys(start),
        distinct_keys(pairs),
    ensures
        accumulate_fits(start, pairs, negate) <==> (forall|key: SpecKey| #[trigger]
            counts_of(pairs).contains_key(key) ==> fits_i32(
                count_of(counts_of(start), key) + signed(counts_of(pairs)[key], negate),
            )),
        accumulate_fits(start, pairs, negate) ==> distinct_keys(accumulate(start, pairs, negate)),
        accumulate_fits(start, pairs, negate) && !negate ==> counts_of(
            accumulate(start, pairs, negate),
        ) == sum_counts(counts_of(start), counts_of(pairs)),
        accumulate_fits(start, pairs, negate) && negate ==> counts_of(
            accumulate(start, pairs, negate),
        ) == difference_counts(counts_of(start), counts_of(pairs)),
{
    let after = accumulate(start, pairs, negate);
    if accumulate_fits(start, pairs, negate) {
        lemma_accumulate(start, pairs, negate);
        assert forall|key: SpecKey| #[trigger] counts_of(pairs).contains_key(key) implies fits_i32(
            count_of(counts_of(start), key) + signed(counts_of(pairs)[key], negate),
        ) by {
            lemma_total_of_distinct(pairs, key);
            assert(has_key(after, key));
            assert(counts_of(after).contains_key(key));
            assert(count_of(counts_of(after), key) == after[position_of(after, key)].1);
        }
        if negate {
            let difference = difference_counts(counts_of(start), counts_of(pairs));
            assert forall|key: SpecKey| #[trigger]
                counts_of(after).contains_key(key) == difference.contains_key(key) && count_of(
                    counts_of(after),
                    key,
                ) == count_of(counts_of(start), key) - count_of(counts_of(pairs), key) by {
                lemma_total_of_distinct(pairs, key);
                assert(has_key(after, key) <==> (has_key(start, key) || has_key(pairs, key)));
            }
            assert(counts_of(after) =~= difference);
        } else {
            let sum = sum_counts(counts_of(start), counts_of(pairs));
            assert forall|key: SpecKey| #[trigger]
                counts_of(after).contains_key(key) == sum.contains_key(key) && count_of(
                    counts_of(after),
                    key,
                ) == count_of(counts_of(start), key) + count_of(counts_of(pairs), key) by {
                lemma_total_of_distinct(pairs, key);
                assert(has_key(after, key) <==> (has_key(start, key) || has_key(pairs, key)));
            }
            assert(counts_of(after) =~= sum);
        }
    }
    if forall|key: SpecKey| #[trigger]
        counts_of(pairs).contains_key(key) ==> fits_i32(
            count_of(counts_of(start), key) + signed(counts_of(pairs)[key], negate),
        ) {
        lemma_accumulate_distinct(start, pairs, negate);
    }
}

/// What can be accumulated can be accumulated up to any point.
pub proof fn lemma_accumulate_fits_prefix<'a>(
    start: Seq<(ElementSpecification<'a>, i32)>,
    pairs: Seq<(ElementSpecification<'a>, i32)>,
    negate: bool,
    k: int,
)
    requires
        accumulate_fits(start, pairs, negate),
        0 <= k <= pairs.len(),
    ensures
        accumulate_fits(start, pairs.take(k), negate),
    decreases pairs.len() - k,
{
    if k == pairs.len() {
        assert(pairs.take(k) =~= pairs);
    } else {
        lemma_accumulate_fits_prefix(start, pairs, negate, k + 1);
        assert(pairs.take(k + 1).drop_last() =~= pairs.take(k));
    }
}

/// [`scaled`] keeps the keys distinct and multiplies each count.
pub proof fn lemma_scaled<'a>(entries: Seq<(ElementSpecification<'a>, i32)>, factor: i32)
    requires
        distinct_keys(entries),
        forall|key: SpecKey| #[trigger]
            counts_of(entries).contains_key(key) ==> fits_i32(counts_of(entries)[key] * factor),
    ensures
        distinct_keys(scaled(entries, factor)),
        counts_of(scaled(entries, factor)) == scale_counts(counts_of(entries), factor as int),
{
    let after = scaled(entries, factor);
    assert forall|a: int, b: int| 0 <= a < b < after.len() implies (#[trigger] after[a]).0@ != (
    #[trigger] after[b]).0@ by {
        assert(entries[a].0@ != entries[b].0@);
    }
    assert forall|key: SpecKey| has_key(after, key) <==> has_key(entries, key) by {
        if has_key(after, key) {
            let j = position_of(after, key);
            assert(entries[j].0@ == key);
        }
        if has_key(entries, key) {
            let j = position_of(entries, key);
            assert(after[j].0@ == key);
        }
    }
    assert forall|key: SpecKey| has_key(after, key) implies counts_of(after)[key] == counts_of(
        entries,
    )[key] * factor by {
        let j = position_of(after, key);
        lemma_position_of(after, j);
        lemma_position_of(entries, j);
    }
    assert(counts_of(after) =~= scale_counts(counts_of(entries), factor as int));
}

} // verus!
