//! Reading compositions from text: formulas, which are specifications with
//! counts one after the other, and lists of specification texts with counts.

use crate::composition::ChemicalComposition;
use crate::counts::{accumulate, accumulate_fits, count_of, has_key, total_of};
use crate::element::{Element, PeriodicTable};
use crate::error::ChemError;
use crate::specification::{parse_text, ElementSpecification, SpecKey};
use crate::text::{find, find_from, is_digit, lemma_find_from, number_in, read_number, to_chars};
use vstd::prelude::*;
use vstd::string::*;

verus! {

/// Whether `c` is one of `A` to `Z`.
pub open spec fn is_upper(c: char) -> bool {
    'A' <= c && c <= 'Z'
}

/// Whether `c` is one of `a` to `z`.
pub open spec fn is_lower(c: char) -> bool {
    'a' <= c && c <= 'z'
}

/// The end of the run of lower-case letters that starts at `from`.
pub open spec fn lower_run_end(s: Seq<char>, from: int) -> int
    decreases s.len() - from,
{
    if 0 <= from < s.len() && is_lower(s[from]) {
        lower_run_end(s, from + 1)
    } else {
        from
    }
}

/// The end of the run of digits that starts at `from`.
pub open spec fn digit_run_end(s: Seq<char>, from: int) -> int
    decreases s.len() - from,
{
    if 0 <= from < s.len() && is_digit(s[from]) {
        digit_run_end(s, from + 1)
    } else {
        from
    }
}

/// One token of a formula: the symbol of an element, an isotope number,
/// which is zero where the token gives none, and a count, which is one where
/// the token gives none.
pub struct FormulaToken {
    pub symbol: Seq<char>,
    pub isotope: u16,
    pub count: i32,
}

/// The token of `symbol` and `isotope` whose count, if it has one, starts at
/// `at`, and where the token ends.
pub open spec fn count_at(s: Seq<char>, symbol: Seq<char>, isotope: u16, at: int) -> Result<
    (FormulaToken, int),
    ChemError,
> {
    let end = digit_run_end(s, at);
    if end == at {
        Ok((FormulaToken { symbol, isotope, count: 1 }, end))
    } else {
        match number_in(s.subrange(at, end), 0x7fff_ffff) {
            Some(count) => Ok((FormulaToken { symbol, isotope, count: count as i32 }, end)),
            None => Err(ChemError::BadDigitRun),
        }
    }
}

/// The token that starts at `at`, and where it ends.
///
/// A token is a symbol, which is an upper-case letter and the lower-case
/// letters that follow it; then, optionally, an isotope number in square
/// brackets; then, optionally, a count in digits.
pub open spec fn token_at(s: Seq<char>, at: int) -> Result<(FormulaToken, int), ChemError> {
    if !is_upper(s[at]) {
        Err(ChemError::UnexpectedCharacter)
    } else {
        let symbol_end = lower_run_end(s, at + 1);
        let symbol = s.subrange(at, symbol_end);
        if symbol_end < s.len() && s[symbol_end] == '[' {
            let close = find_from(s, ']', symbol_end + 1);
            if close == s.len() {
                Err(ChemError::UnclosedBracket)
            } else {
                match number_in(s.subrange(symbol_end + 1, close), 0xffff) {
                    Some(isotope) => count_at(s, symbol, isotope as u16, close + 1),
                    None => Err(ChemError::BadDigitRun),
                }
            }
        } else {
            count_at(s, symbol, 0, symbol_end)
        }
    }
}

/// A run ends at or after its start, within the text, before a character
/// that is not of the run.
pub proof fn lemma_run_ends(s: Seq<char>, from: int)
    requires
        0 <= from <= s.len(),
    ensures
        from <= lower_run_end(s, from) <= s.len(),
        from <= digit_run_end(s, from) <= s.len(),
        lower_run_end(s, from) < s.len() ==> !is_lower(s[lower_run_end(s, from)]),
        digit_run_end(s, from) < s.len() ==> !is_digit(s[digit_run_end(s, from)]),
        forall|i: int| from <= i < lower_run_end(s, from) ==> is_lower(#[trigger] s[i]),
        forall|i: int| from <= i < digit_run_end(s, from) ==> is_digit(#[trigger] s[i]),
    decreases s.len() - from,
{
    if from < s.len() {
        lemma_run_ends(s, from + 1);
    }
}

/// A token ends behind its start, within the text.
pub proof fn lemma_token_at(s: Seq<char>, at: int)
    requires
        0 <= at < s.len(),
    ensures
        token_at(s, at) matches Ok((_, end)) ==> at < end <= s.len(),
{
    lemma_run_ends(s, at + 1);
    let symbol_end = lower_run_end(s, at + 1);
    if symbol_end < s.len() && s[symbol_end] == '[' {
        lemma_find_from(s, ']', symbol_end + 1);
        let close = find_from(s, ']', symbol_end + 1);
        if close < s.len() {
            lemma_run_ends(s, close + 1);
        }
    } else {
        lemma_run_ends(s, symbol_end);
    }
}

/// What `first` followed by the outcome `rest` reads as.
pub open spec fn followed_by(first: Seq<FormulaToken>, rest: Result<Seq<FormulaToken>, ChemError>)
    -> Result<Seq<FormulaToken>, ChemError> {
    match rest {
        Ok(tokens) => Ok(first + tokens),
        Err(e) => Err(e),
    }
}

/// The tokens of `s` from `at` on, each with a symbol of `symbols`; or the
/// error of the first token that is malformed or has no such symbol.
pub open spec fn formula_tokens(symbols: Set<Seq<char>>, s: Seq<char>, at: int) -> Result<
    Seq<FormulaToken>,
    ChemError,
>
    decreases s.len() - at,
{
    if at < 0 || at >= s.len() {
        Ok(Seq::empty())
    } else {
        match token_at(s, at) {
            Err(e) => Err(e),
            Ok((token, end)) => {
                if !symbols.contains(token.symbol) {
                    Err(ChemError::ElementNotFound)
                } else {
                    proof {
                        lemma_token_at(s, at);
                    }
                    followed_by(seq![token], formula_tokens(symbols, s, end))
                }
            },
        }
    }
}

/// The specifications and counts that `tokens` stand for, with the elements
/// of `table`.
pub open spec fn resolved<'a>(table: Map<Seq<char>, Element>, tokens: Seq<FormulaToken>) -> Seq<
    (ElementSpecification<'a>, i32),
> {
    Seq::new(
        tokens.len(),
        |i: int|
            (
                ElementSpecification { element: &table[tokens[i].symbol], isotope: tokens[i].isotope },
                tokens[i].count,
            ),
    )
}

/// Prepending a token to what follows is appending it to what precedes.
pub proof fn lemma_followed_by(
    first: Seq<FormulaToken>,
    token: FormulaToken,
    rest: Result<Seq<FormulaToken>, ChemError>,
)
    ensures
        followed_by(first, followed_by(seq![token], rest)) == followed_by(first.push(token), rest),
{
    match rest {
        Ok(tokens) => {
            assert(first + (seq![token] + tokens) =~= first.push(token) + tokens);
        },
        Err(_) => {},
    }
}

/// Computes [`lower_run_end`].
fn end_of_lower_run(chars: &Vec<char>, from: usize) -> (r: usize)
    requires
        from <= chars.len(),
    ensures
        r == lower_run_end(chars@, from as int),
        from <= r <= chars.len(),
{
    let mut i: usize = from;
    while i < chars.len() && 'a' <= chars[i] && chars[i] <= 'z'
        invariant
            from <= i <= chars.len(),
            lower_run_end(chars@, i as int) == lower_run_end(chars@, from as int),
        decreases chars.len() - i,
    {
        i += 1;
    }
    i
}

/// Computes [`digit_run_end`].
fn end_of_digit_run(chars: &Vec<char>, from: usize) -> (r: usize)
    requires
        from <= chars.len(),
    ensures
        r == digit_run_end(chars@, from as int),
        from <= r <= chars.len(),
{
    let mut i: usize = from;
    while i < chars.len() && '0' <= chars[i] && chars[i] <= '9'
        invariant
            from <= i <= chars.len(),
            digit_run_end(chars@, i as int) == digit_run_end(chars@, from as int),
        decreases chars.len() - i,
    {
        i += 1;
    }
    i
}

/// Reads the token that starts at `at`: where its symbol ends, its isotope
/// number, its count, and where it ends.
fn read_token(chars: &Vec<char>, at: usize) -> (r: Result<(usize, u16, i32, usize), ChemError>)
    requires
        at < chars.len(),
    ensures
        match r {
            Ok((symbol_end, isotope, count, end)) => {
                &&& at < symbol_end <= end <= chars.len()
                &&& token_at(chars@, at as int) == Ok::<(FormulaToken, int), ChemError>(
                    (
                        FormulaToken {
                            symbol: chars@.subrange(at as int, symbol_end as int),
                            isotope,
                            count,
                        },
                        end as int,
                    ),
                )
            },
            Err(e) => token_at(chars@, at as int) == Err::<(FormulaToken, int), ChemError>(e),
        },
{
    let c: char = chars[at];
    if !('A' <= c && c <= 'Z') {
        return Err(ChemError::UnexpectedCharacter);
    }
    let symbol_end: usize = end_of_lower_run(chars, at + 1);
    let mut isotope: u16 = 0;
    let mut count_start: usize = symbol_end;
    if symbol_end < chars.len() && chars[symbol_end] == '[' {
        let close: usize = find(chars, ']', symbol_end + 1);
        if close == chars.len() {
            return Err(ChemError::UnclosedBracket);
        }
        match read_number(chars, symbol_end + 1, close, 0xffff) {
            Some(number) => {
                isotope = number as u16;
                count_start = close + 1;
            },
            None => {
                return Err(ChemError::BadDigitRun);
            },
        }
    }
    let end: usize = end_of_digit_run(chars, count_start);
    if end == count_start {
        return Ok((symbol_end, isotope, 1, end));
    }
    match read_number(chars, count_start, end, 0x7fff_ffff) {
        Some(number) => Ok((symbol_end, isotope, number as i32, end)),
        None => Err(ChemError::BadDigitRun),
    }
}

/// Reads a formula as the specifications and counts of its tokens, in
/// order, with the elements of `table`.
pub fn parse_formula<'a>(table: &'a PeriodicTable, text: &str) -> (r: Result<
    Vec<(ElementSpecification<'a>, i32)>,
    ChemError,
>)
    ensures
        match r {
            Ok(pairs) => formula_tokens(table@.dom(), text@, 0) matches Ok(tokens) && pairs@
                == resolved(table@, tokens),
            Err(e) => formula_tokens(table@.dom(), text@, 0) == Err::<Seq<FormulaToken>, ChemError>(
                e,
            ),
        },
{
    let chars = to_chars(text);
    let n: usize = chars.len();
    let mut pairs: Vec<(ElementSpecification<'a>, i32)> = Vec::new();
    let mut at: usize = 0;
    let ghost mut done: Seq<FormulaToken> = Seq::empty();
    proof {
        let all = formula_tokens(table@.dom(), text@, 0);
        match all {
            Ok(tokens) => {
                assert(done + tokens =~= tokens);
            },
            Err(_) => {},
        }
    }
    while at < n
        invariant
            at <= n,
            n == chars@.len(),
            chars@ == text@,
            formula_tokens(table@.dom(), text@, 0) == followed_by(
                done,
                formula_tokens(table@.dom(), text@, at as int),
            ),
            pairs@ == resolved(table@, done),
        decreases n - at,
    {
        let (symbol_end, isotope, count, end) = match read_token(&chars, at) {
            Ok(token) => token,
            Err(e) => {
                return Err(e);
            },
        };
        let element = match table.lookup(text.substring_char(at, symbol_end)) {
            Ok(element) => element,
            Err(e) => {
                return Err(e);
            },
        };
        pairs.push((ElementSpecification { element, isotope }, count));
        proof {
            let token = FormulaToken {
                symbol: text@.subrange(at as int, symbol_end as int),
                isotope,
                count,
            };
            lemma_followed_by(done, token, formula_tokens(table@.dom(), text@, end as int));
            done = done.push(token);
            assert(pairs@ =~= resolved(table@, done));
        }
        at = end;
    }
    proof {
        assert(done + Seq::<FormulaToken>::empty() =~= done);
    }
    Ok(pairs)
}

/// The specifications and counts that `pairs` stand for, with the elements
/// of `table`; or the error of the first text that is no specification.
pub open spec fn pairs_resolved<'a, 'b>(
    table: Map<Seq<char>, Element>,
    pairs: Seq<(&'b str, i32)>,
) -> Result<Seq<(ElementSpecification<'a>, i32)>, ChemError>
    decreases pairs.len(),
{
    if pairs.len() == 0 {
        Ok(Seq::empty())
    } else {
        match pairs_resolved(table, pairs.drop_last()) {
            Err(e) => Err(e),
            Ok(front) => match parse_text(table.dom(), pairs.last().0@) {
                Err(e) => Err(e),
                Ok((symbol, isotope)) => Ok(
                    front.push(
                        (ElementSpecification { element: &table[symbol], isotope }, pairs.last().1),
                    ),
                ),
            },
        }
    }
}

/// The error of a front part of the pairs is the error of them all.
pub proof fn lemma_pairs_resolved_error<'b>(
    table: Map<Seq<char>, Element>,
    pairs: Seq<(&'b str, i32)>,
    k: int,
)
    requires
        0 <= k <= pairs.len(),
        pairs_resolved(table, pairs.take(k)) is Err,
    ensures
        pairs_resolved(table, pairs) == pairs_resolved(table, pairs.take(k)),
    decreases pairs.len() - k,
{
    if k == pairs.len() {
        assert(pairs.take(k) =~= pairs);
    } else {
        assert(pairs.take(k + 1).drop_last() =~= pairs.take(k));
        lemma_pairs_resolved_error(table, pairs, k + 1);
    }
}

/// Reads each text of `pairs` as a specification of `table`, in order.
pub fn parse_pairs<'a>(table: &'a PeriodicTable, pairs: &Vec<(&str, i32)>) -> (r: Result<
    Vec<(ElementSpecification<'a>, i32)>,
    ChemError,
>)
    ensures
        match r {
            Ok(read) => pairs_resolved(table@, pairs@) == Ok::<
                Seq<(ElementSpecification<'a>, i32)>,
                ChemError,
            >(read@),
            Err(e) => pairs_resolved(table@, pairs@) == Err::<
                Seq<(ElementSpecification<'a>, i32)>,
                ChemError,
            >(e),
        },
{
    let mut read: Vec<(ElementSpecification<'a>, i32)> = Vec::new();
    let mut i: usize = 0;
    while i < pairs.len()
        invariant
            i <= pairs@.len(),
            pairs_resolved(table@, pairs@.take(i as int)) == Ok::<
                Seq<(ElementSpecification<'a>, i32)>,
                ChemError,
            >(read@),
        decreases pairs@.len() - i,
    {
        let (text, count) = pairs[i];
        proof {
            assert(pairs@.take(i + 1).drop_last() =~= pairs@.take(i as int));
        }
        match ElementSpecification::parse(table, text) {
            Ok(spec) => {
                read.push((spec, count));
            },
            Err(e) => {
                proof {
                    lemma_pairs_resolved_error(table@, pairs@, i + 1);
                }
                return Err(e);
            },
        }
        i += 1;
    }
    assert(pairs@.take(i as int) =~= pairs@);
    Ok(read)
}

impl<'a> ChemicalComposition<'a> {
    /// Reads a formula as a composition: each token adds its count to the
    /// count of its specification, so that a specification that the formula
    /// names twice has the sum. Fails as [`parse_formula`] does, and with
    /// `CountOverflow` where a sum is no 32-bit signed number.
    pub fn parse(table: &'a PeriodicTable, text: &str) -> (r: Result<
        ChemicalComposition<'a>,
        ChemError,
    >)
        ensures
            match formula_tokens(table@.dom(), text@, 0) {
                Ok(tokens) => {
                    let pairs = resolved(table@, tokens);
                    if accumulate_fits(Seq::empty(), pairs, false) {
                        &&& r matches Ok(c)
                        &&& c.entries() == accumulate(Seq::empty(), pairs, false)
                        &&& forall|key: SpecKey| c@.contains_key(key) <==> has_key(pairs, key)
                        &&& forall|key: SpecKey| count_of(c@, key) == total_of(pairs, key)
                        &&& c.cached() is None
                    } else {
                        r matches Err(e) && e == ChemError::CountOverflow
                    }
                },
                Err(error) => r matches Err(e) && e == error,
            },
    {
        let pairs = match parse_formula(table, text) {
            Ok(pairs) => pairs,
            Err(e) => {
                return Err(e);
            },
        };
        match ChemicalComposition::try_from_pairs(&pairs) {
            Some(c) => Ok(c),
            None => Err(ChemError::CountOverflow),
        }
    }
    /// The composition that holds, for each specification that the texts of
    /// `pairs` name, the total of the counts given for it. Fails as
    /// [`parse_pairs`] does, and with `CountOverflow` where a total on the
    /// way is no 32-bit signed number.
    pub fn from_symbol_pairs(table: &'a PeriodicTable, pairs: &Vec<(&str, i32)>) -> (r: Result<
        ChemicalComposition<'a>,
        ChemError,
    >)
        ensures
            match pairs_resolved(table@, pairs@) {
                Ok(read) => {
                    if accumulate_fits(Seq::empty(), read, false) {
                        &&& r matches Ok(c)
                        &&& c.entries() == accumulate(Seq::empty(), read, false)
                        &&& forall|key: SpecKey| c@.contains_key(key) <==> has_key(read, key)
                        &&& forall|key: SpecKey| count_of(c@, key) == total_of(read, key)
                        &&& c.cached() is None
                    } else {
                        r matches Err(e) && e == ChemError::CountOverflow
                    }
                },
                Err(error) => r matches Err(e) && e == error,
            },
    {
        let read = match parse_pairs(table, pairs) {
            Ok(read) => read,
            Err(e) => {
                return Err(e);
            },
        };
        match ChemicalComposition::try_from_pairs(&read) {
            Some(c) => Ok(c),
            None => Err(ChemError::CountOverflow),
        }
    }
}

} // verus!
