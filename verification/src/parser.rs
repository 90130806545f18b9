//! The grammar of an inequality, as functions from text to a value and the
//! text that is left.
//!
//! ```text
//! inequality := expression relation expression
//! expression := term+
//! term       := ("+"|"-")? (digits letters? | letters) ("^" digits)?
//! relation   := "<=" | "≤" | "<" | ">=" | "≥" | ">"
//! ```
//!
//! Each rule has a spec function on `Seq<char>` that says what it reads, and
//! an executable function on `&str` that is proved to read just that.
//!
//! A text is taken apart by the positions of its characters, and to find a
//! position in a `&str` is linear in its length: reading is meant for texts
//! of the length of an inequality.

use vstd::prelude::*;
use vstd::string::*;
use crate::error::{Error, ErrorKind, ErrorView, Result};
use crate::text::{is_digit, is_digit_char, is_letter, is_letter_char};
use crate::types::{
    reduce, terms_of, text_of, InequalityView, Monomial, MonomialView, Number, Quadratic,
    QuadraticInequality, QuadraticView, Sign,
};

verus! {

/// What a rule hands back: the text that is left, and the value read.
pub type Parsed<'a, T> = Result<'a, (&'a str, T)>;

/// Where the run of digits that starts at `from` ends.
pub open spec fn digits_end(s: Seq<char>, from: int) -> int
    decreases s.len() - from,
{
    if 0 <= from < s.len() && is_digit(s[from]) {
        digits_end(s, from + 1)
    } else {
        from
    }
}

/// Where the run of letters that starts at `from` ends.
pub open spec fn letters_end(s: Seq<char>, from: int) -> int
    decreases s.len() - from,
{
    if 0 <= from < s.len() && is_letter(s[from]) {
        letters_end(s, from + 1)
    } else {
        from
    }
}

/// An optional `+` or `-`; `+` where there is none.
pub open spec fn spec_plus_minus(s: Seq<char>) -> (Seq<char>, Seq<char>) {
    if s.len() > 0 && (s[0] == '+' || s[0] == '-') {
        (s.skip(1), s.take(1))
    } else {
        (s, seq!['+'])
    }
}

/// One digit or more, read as a number; 1 where they do not fit in 32 bits.
pub open spec fn spec_coefficient(s: Seq<char>) -> std::result::Result<
    (Seq<char>, int),
    ErrorView,
> {
    let end = digits_end(s, 0);
    if end > 0 {
        Ok((s.skip(end), Number::resolve(Some(s.take(end)), 1)))
    } else {
        Err(ErrorView::Nom(s, ErrorKind::TakeWhile1))
    }
}

/// One letter or more: the name of a variable.
pub open spec fn spec_character(s: Seq<char>) -> std::result::Result<
    (Seq<char>, Seq<char>),
    ErrorView,
> {
    let end = letters_end(s, 0);
    if end > 0 {
        Ok((s.skip(end), s.take(end)))
    } else {
        Err(ErrorView::Nom(s, ErrorKind::Alpha))
    }
}

/// An optional exponent: `^` and one digit or more. Where there is none, 1
/// and nothing is taken.
pub open spec fn spec_degree(s: Seq<char>) -> (Seq<char>, int) {
    let end = digits_end(s, 1);
    if s.len() > 0 && s[0] == '^' && end > 1 {
        (s.skip(end), Number::resolve(Some(s.subrange(1, end)), 1))
    } else {
        (s, 1)
    }
}

/// A coefficient, a variable, or both: the coefficient is 1 where only the
/// variable stands.
pub open spec fn spec_coefficient_character(s: Seq<char>) -> std::result::Result<
    (Seq<char>, (int, Option<Seq<char>>)),
    ErrorView,
> {
    match spec_coefficient(s) {
        Ok((rest, k)) => match spec_character(rest) {
            Ok((rest, v)) => Ok((rest, (k, Some(v)))),
            Err(_) => Ok((rest, (k, None))),
        },
        Err(_) => match spec_character(s) {
            Ok((rest, v)) => Ok((rest, (1, Some(v)))),
            Err(e) => Err(e),
        },
    }
}

/// One term: sign, coefficient and variable, exponent. The coefficient takes
/// the sign that was read.
pub open spec fn spec_monomial(s: Seq<char>) -> std::result::Result<
    (Seq<char>, MonomialView),
    ErrorView,
> {
    let (rest, sign) = spec_plus_minus(s);
    match spec_coefficient_character(rest) {
        Ok((rest, (k, v))) => {
            let (rest, exponent) = spec_degree(rest);
            Ok((rest, MonomialView { coefficient: Number::signed(k, sign), variable: v, exponent }))
        },
        Err(e) => Err(e),
    }
}

/// As many terms as can be read, and the text after the last of them.
pub open spec fn spec_monomials(s: Seq<char>) -> (Seq<char>, Seq<MonomialView>)
    decreases s.len(),
{
    match spec_monomial(s) {
        Ok((rest, m)) => if rest.len() < s.len() {
            let (rest, terms) = spec_monomials(rest);
            (rest, seq![m] + terms)
        } else {
            (s, Seq::empty())
        },
        Err(_) => (s, Seq::empty()),
    }
}

/// One term or more, folded into the canonical form.
pub open spec fn spec_quadratic(s: Seq<char>) -> std::result::Result<
    (Seq<char>, QuadraticView),
    ErrorView,
> {
    match spec_monomial(s) {
        Ok(_) => {
            let (rest, terms) = spec_monomials(s);
            match reduce(terms) {
                Ok(q) => Ok((rest, q)),
                Err(e) => Err(e),
            }
        },
        Err(e) => Err(e),
    }
}

/// One of the six relation tokens; of two that match, the longer.
pub open spec fn spec_sign(s: Seq<char>) -> std::result::Result<(Seq<char>, Sign), ErrorView> {
    if s.len() >= 2 && s[0] == '<' && s[1] == '=' {
        Ok((s.skip(2), Sign::Lte))
    } else if s.len() >= 2 && s[0] == '>' && s[1] == '=' {
        Ok((s.skip(2), Sign::Gte))
    } else if s.len() >= 1 && s[0] == '≤' {
        Ok((s.skip(1), Sign::Lte))
    } else if s.len() >= 1 && s[0] == '<' {
        Ok((s.skip(1), Sign::Lt))
    } else if s.len() >= 1 && s[0] == '≥' {
        Ok((s.skip(1), Sign::Gte))
    } else if s.len() >= 1 && s[0] == '>' {
        Ok((s.skip(1), Sign::Gt))
    } else {
        Err(ErrorView::Nom(s, ErrorKind::Tag))
    }
}

/// Two expressions with a relation between them; the right one is moved to
/// the left. Fails with `Overflow` where that does not fit in 32 bits.
pub open spec fn spec_quadratic_inequality(s: Seq<char>) -> std::result::Result<
    (Seq<char>, InequalityView),
    ErrorView,
> {
    match spec_quadratic(s) {
        Ok((rest, left)) => match spec_sign(rest) {
            Ok((rest, sign)) => match spec_quadratic(rest) {
                Ok((rest, right)) => if QuadraticInequality::movable(left, right) {
                    Ok((rest, InequalityView { quadratic: left.plus(right.negated()), sign }))
                } else {
                    Err(ErrorView::Overflow)
                },
                Err(e) => Err(e),
            },
            Err(e) => Err(e),
        },
        Err(e) => Err(e),
    }
}

/// The inequality that a text begins with.
pub open spec fn spec_parse(s: Seq<char>) -> std::result::Result<InequalityView, ErrorView> {
    match spec_quadratic_inequality(s) {
        Ok((_, inequality)) => Ok(inequality),
        Err(e) => Err(e),
    }
}

/// A run of digits ends at or after its start, and within the text.
pub proof fn lemma_digits_end_within(s: Seq<char>, from: int)
    requires
        0 <= from <= s.len(),
    ensures
        from <= digits_end(s, from) <= s.len(),
    decreases s.len() - from,
{
    if from < s.len() && is_digit(s[from]) {
        lemma_digits_end_within(s, from + 1);
    }
}

/// A run of letters ends at or after its start, and within the text.
pub proof fn lemma_letters_end_within(s: Seq<char>, from: int)
    requires
        0 <= from <= s.len(),
    ensures
        from <= letters_end(s, from) <= s.len(),
    decreases s.len() - from,
{
    if from < s.len() && is_letter(s[from]) {
        lemma_letters_end_within(s, from + 1);
    }
}

/// A term that is read takes at least one character, so that
/// [`spec_monomials`] reads terms until one fails.
pub proof fn lemma_monomial_takes_text(s: Seq<char>)
    ensures
        spec_monomial(s) matches Ok((rest, _)) ==> rest.len() < s.len(),
{
    let (after_sign, _) = spec_plus_minus(s);
    lemma_digits_end_within(after_sign, 0);
    lemma_letters_end_within(after_sign, 0);
    if let Ok((after_digits, _)) = spec_coefficient(after_sign) {
        lemma_letters_end_within(after_digits, 0);
    }
    if let Ok((after_name, _)) = spec_coefficient_character(after_sign) {
        assert(after_name.len() < after_sign.len());
        if after_name.len() > 0 {
            lemma_digits_end_within(after_name, 1);
        }
    }
}

/// Finds the end of the run of digits that starts at `from`.
pub fn scan_digits(input: &str, from: usize) -> (end: usize)
    requires
        from <= input@.len(),
    ensures
        end == digits_end(input@, from as int),
        from <= end <= input@.len(),
        forall|j: int| from <= j < end ==> is_digit(#[trigger] input@[j]),
{
    let n: usize = input.unicode_len();
    let mut i: usize = from;
    while i < n
        invariant
            n == input@.len(),
            from <= i <= n,
            digits_end(input@, from as int) == digits_end(input@, i as int),
            forall|j: int| from <= j < i ==> is_digit(#[trigger] input@[j]),
        decreases n - i,
    {
        if !is_digit_char(input.get_char(i)) {
            return i;
        }
        i += 1;
    }
    i
}

/// Finds the end of the run of letters that starts at `from`.
pub fn scan_letters(input: &str, from: usize) -> (end: usize)
    requires
        from <= input@.len(),
    ensures
        end == letters_end(input@, from as int),
        from <= end <= input@.len(),
{
    let n: usize = input.unicode_len();
    let mut i: usize = from;
    while i < n
        invariant
            n == input@.len(),
            from <= i <= n,
            letters_end(input@, from as int) == letters_end(input@, i as int),
        decreases n - i,
    {
        if !is_letter_char(input.get_char(i)) {
            return i;
        }
        i += 1;
    }
    i
}

/// Reads an optional sign. Never fails.
pub fn plus_minus<'a>(input: &'a str) -> (result: Parsed<'a, &'a str>)
    ensures
        result matches Ok((rest, sign)) && spec_plus_minus(input@) == (rest@, sign@)
            && rest@.len() <= input@.len(),
{
    let n: usize = input.unicode_len();
    if n > 0 {
        let c = input.get_char(0);
        if c == '+' || c == '-' {
            return Ok((input.substring_char(1, n), input.substring_char(0, 1)));
        }
    }
    proof {
        reveal_strlit("+");
        assert("+"@ =~= seq!['+']);
    }
    Ok((input, "+"))
}

/// Reads the digits of a coefficient.
pub fn coefficient<'a>(input: &'a str) -> (result: Parsed<'a, Number>)
    ensures
        match result {
            Ok((rest, k)) => spec_coefficient(input@) == Ok::<_, ErrorView>((rest@, k.0 as int))
                && k.0 >= 0 && rest@.len() < input@.len(),
            Err(e) => spec_coefficient(input@) == Err::<(Seq<char>, int), _>(e@),
        },
{
    let end: usize = scan_digits(input, 0);
    if end == 0 {
        return Err(Error::Nom(input, ErrorKind::TakeWhile1));
    }
    let digits = input.substring_char(0, end);
    assert(is_digit(digits@[0]));
    let k = Number::new_with_default(Some(digits), 1);
    Ok((input.substring_char(end, input.unicode_len()), k))
}

/// Reads the name of a variable.
pub fn character<'a>(input: &'a str) -> (result: Parsed<'a, &'a str>)
    ensures
        match result {
            Ok((rest, v)) => spec_character(input@) == Ok::<_, ErrorView>((rest@, v@))
                && rest@.len() < input@.len(),
            Err(e) => spec_character(input@) == Err::<(Seq<char>, Seq<char>), _>(e@),
        },
{
    let end: usize = scan_letters(input, 0);
    if end == 0 {
        return Err(Error::Nom(input, ErrorKind::Alpha));
    }
    Ok((input.substring_char(end, input.unicode_len()), input.substring_char(0, end)))
}

/// Reads an optional exponent. Never fails.
pub fn degree<'a>(input: &'a str) -> (result: Parsed<'a, Number>)
    ensures
        result matches Ok((rest, k)) && spec_degree(input@) == (rest@, k.0 as int)
            && rest@.len() <= input@.len(),
{
    let n: usize = input.unicode_len();
    if n > 0 && input.get_char(0) == '^' {
        let end: usize = scan_digits(input, 1);
        if end > 1 {
            let digits = input.substring_char(1, end);
            assert(is_digit(digits@[0]));
            let k = Number::new_with_default(Some(digits), 1);
            return Ok((input.substring_char(end, n), k));
        }
    }
    Ok((input, Number::new(1)))
}

/// Reads the coefficient and the variable of a term.
pub fn coefficient_character<'a>(input: &'a str) -> (result: Parsed<
    'a,
    (Number, Option<&'a str>),
>)
    ensures
        match result {
            Ok((rest, (k, v))) => spec_coefficient_character(input@) == Ok::<_, ErrorView>(
                (rest@, (k.0 as int, text_of(v))),
            ) && k.0 >= 0 && rest@.len() < input@.len(),
            Err(e) => spec_coefficient_character(input@) == Err::<
                (Seq<char>, (int, Option<Seq<char>>)),
                _,
            >(e@),
        },
{
    match coefficient(input) {
        Ok((rest, k)) => match character(rest) {
            Ok((rest, v)) => Ok((rest, (k, Some(v)))),
            Err(_) => Ok((rest, (k, None))),
        },
        Err(_) => match character(input) {
            Ok((rest, v)) => Ok((rest, (Number::new(1), Some(v)))),
            Err(e) => Err(e),
        },
    }
}

/// Reads one term.
pub fn monomial<'a>(input: &'a str) -> (result: Parsed<'a, Monomial<'a>>)
    ensures
        match result {
            Ok((rest, m)) => spec_monomial(input@) == Ok::<_, ErrorView>((rest@, m@))
                && rest@.len() < input@.len(),
            Err(e) => spec_monomial(input@) == Err::<(Seq<char>, MonomialView), _>(e@),
        },
{
    let (rest, sign) = match plus_minus(input) {
        Ok(read) => read,
        Err(e) => { return Err(e); },
    };
    let (rest, (mut k, v)) = match coefficient_character(rest) {
        Ok(read) => read,
        Err(e) => { return Err(e); },
    };
    let (rest, exponent) = match degree(rest) {
        Ok(read) => read,
        Err(e) => { return Err(e); },
    };
    k.set_sign(sign);
    Ok((rest, Monomial::new(k, v, exponent)))
}

/// Reads one term or more and folds them into the canonical form.
pub fn quadratic<'a>(input: &'a str) -> (result: Parsed<'a, Quadratic>)
    ensures
        match result {
            Ok((rest, q)) => spec_quadratic(input@) == Ok::<_, ErrorView>((rest@, q@)),
            Err(e) => spec_quadratic(input@) == Err::<(Seq<char>, QuadraticView), _>(e@),
        },
{
    let (first_rest, first) = match monomial(input) {
        Ok(read) => read,
        Err(e) => { return Err(e); },
    };
    let mut rest: &'a str = first_rest;
    let mut monomials: Vec<Monomial<'a>> = Vec::new();
    monomials.push(first);
    assert(terms_of(monomials@) + spec_monomials(rest@).1 =~= seq![first@] + spec_monomials(
        rest@,
    ).1);
    loop
        invariant
            spec_monomials(input@) == (
                spec_monomials(rest@).0,
                terms_of(monomials@) + spec_monomials(rest@).1,
            ),
        ensures
            spec_monomials(input@) == (rest@, terms_of(monomials@)),
        decreases rest@.len(),
    {
        match monomial(rest) {
            Ok((next, m)) => {
                assert(terms_of(monomials@.push(m)) + spec_monomials(next@).1 =~= terms_of(
                    monomials@,
                ) + (seq![m@] + spec_monomials(next@).1));
                monomials.push(m);
                rest = next;
            },
            Err(_) => {
                assert(terms_of(monomials@) + Seq::<MonomialView>::empty() =~= terms_of(
                    monomials@,
                ));
                break ;
            },
        }
    }
    match Quadratic::from_monomials(monomials) {
        Ok(q) => Ok((rest, q)),
        Err(e) => Err(e),
    }
}

/// Reads a relation token.
pub fn sign<'a>(input: &'a str) -> (result: Parsed<'a, Sign>)
    ensures
        match result {
            Ok((rest, relation)) => spec_sign(input@) == Ok::<_, ErrorView>((rest@, relation)),
            Err(e) => spec_sign(input@) == Err::<(Seq<char>, Sign), _>(e@),
        },
{
    let n: usize = input.unicode_len();
    if n == 0 {
        return Err(Error::Nom(input, ErrorKind::Tag));
    }
    let c = input.get_char(0);
    let width: usize = if n >= 2 && (c == '<' || c == '>') && input.get_char(1) == '=' {
        2
    } else if c == '≤' || c == '<' || c == '≥' || c == '>' {
        1
    } else {
        return Err(Error::Nom(input, ErrorKind::Tag));
    };
    let token = input.substring_char(0, width);
    match Sign::new(token) {
        Ok(relation) => Ok((input.substring_char(width, n), relation)),
        Err(e) => Err(e),
    }
}

/// Reads an inequality and moves its right side to the left.
pub fn quadratic_inequality<'a>(input: &'a str) -> (result: Parsed<'a, QuadraticInequality>)
    ensures
        match result {
            Ok((rest, inequality)) => spec_quadratic_inequality(input@) == Ok::<_, ErrorView>(
                (rest@, inequality@),
            ),
            Err(e) => spec_quadratic_inequality(input@) == Err::<(Seq<char>, InequalityView), _>(
                e@,
            ),
        },
{
    let (rest, left) = match quadratic(input) {
        Ok(read) => read,
        Err(e) => { return Err(e); },
    };
    let (rest, relation) = match sign(rest) {
        Ok(read) => read,
        Err(e) => { return Err(e); },
    };
    let (rest, right) = match quadratic(rest) {
        Ok(read) => read,
        Err(e) => { return Err(e); },
    };
    if !QuadraticInequality::can_move(&left, &right) {
        return Err(Error::Overflow);
    }
    Ok((rest, QuadraticInequality::from_expr((left, relation, right))))
}

/// Reads the inequality that `input` begins with; what follows it is not
/// looked at.
pub fn parse<'a>(input: &'a str) -> (result: Result<'a, QuadraticInequality>)
    ensures
        match result {
            Ok(inequality) => spec_parse(input@) == Ok::<_, ErrorView>(inequality@),
            Err(e) => spec_parse(input@) == Err::<InequalityView, _>(e@),
        },
{
    match quadratic_inequality(input) {
        Ok((_, inequality)) => Ok(inequality),
        Err(e) => Err(e),
    }
}

} // verus!
