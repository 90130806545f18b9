//! Numbers, terms, canonical forms, relations and inequalities.

use vstd::prelude::*;
use crate::error::{Error, ErrorView, Result};
use crate::text::{
    all_digits, digits_value, is_digit, is_digit_char, lemma_digits_value_prefix, same_text,
};

verus! {

/// A signed 32-bit coefficient or exponent.
#[derive(Debug, PartialEq, Eq, Clone, Copy, Structural)]
pub struct Number(pub i32);

/// The integer that a decimal literal stands for: an optional `+` or `-`, then
/// one digit or more, of a value that fits in 32 bits. `None` for anything else.
pub open spec fn literal_value(s: Seq<char>) -> Option<int> {
    let signed = s.len() > 0 && (s[0] == '-' || s[0] == '+');
    let digits = if signed { s.skip(1) } else { s };
    let magnitude = digits_value(digits) as int;
    let value = if s.len() > 0 && s[0] == '-' { -magnitude } else { magnitude };
    if digits.len() > 0 && all_digits(digits) && i32::MIN <= value <= i32::MAX {
        Some(value)
    } else {
        None
    }
}

/// Reads a decimal literal.
pub fn read_literal(s: &str) -> (result: Option<i32>)
    ensures
        match result {
            Some(v) => literal_value(s@) == Some(v as int),
            None => literal_value(s@) is None,
        },
{
    let n: usize = s.unicode_len();
    if n == 0 {
        return None;
    }
    let first = s.get_char(0);
    let negative = first == '-';
    let start: usize = if negative || first == '+' { 1 } else { 0 };
    if start == n {
        return None;
    }
    let ghost digits = s@.skip(start as int);
    assert(s@.skip(0) =~= s@);
    let limit: i64 = if negative { 2147483648 } else { 2147483647 };
    let mut acc: i64 = 0;
    let mut i: usize = start;
    while i < n
        invariant
            0 < n == s@.len(),
            start <= i <= n,
            negative == (s@[0] == '-'),
            start == if s@[0] == '-' || s@[0] == '+' { 1int } else { 0int },
            limit == if negative { 2147483648int } else { 2147483647int },
            digits == s@.skip(start as int),
            digits == if start == 1 { s@.skip(1) } else { s@ },
            0 <= acc <= limit,
            acc == digits_value(digits.take(i - start)),
            forall|j: int| 0 <= j < i - start ==> is_digit(#[trigger] digits[j]),
        decreases n - i,
    {
        let c = s.get_char(i);
        assert(digits[i - start] == c);
        if !is_digit_char(c) {
            return None;
        }
        let d: i64 = (c as u32 - 48) as i64;
        proof {
            assert(digits.take(i - start + 1).drop_last() =~= digits.take(i - start));
            assert(digits.take(i - start + 1).last() == c);
            lemma_digits_value_prefix(digits, i - start + 1);
        }
        if acc * 10 + d > limit {
            return None;
        }
        acc = acc * 10 + d;
        i += 1;
    }
    assert(digits.take(i - start) =~= digits);
    if negative {
        Some((-acc) as i32)
    } else {
        Some(acc as i32)
    }
}

impl Number {
    /// The value that an optional literal resolves to: the literal's own value
    /// where it has one; else `default`, negated where the text begins with `-`.
    pub open spec fn resolve(input: Option<Seq<char>>, default: int) -> int {
        match input {
            Some(s) => match literal_value(s) {
                Some(v) => v,
                None => if s.len() > 0 && s[0] == '-' {
                    -default
                } else {
                    default
                },
            },
            None => default,
        }
    }

    /// The magnitude of `value` under the sign that `sign` names: negative for
    /// `-`, positive for any other text.
    pub open spec fn signed(value: int, sign: Seq<char>) -> int {
        let magnitude = if value < 0 { -value } else { value };
        if sign == seq!['-'] {
            -magnitude
        } else {
            magnitude
        }
    }

    /// The number `input`.
    pub fn new(input: i32) -> (result: Number)
        ensures
            result.0 == input,
    {
        Number(input)
    }

    /// Reads an optional literal, falling back on `default`.
    ///
    /// The fallback must fit in 32 bits: `default` may not be `i32::MIN` where
    /// the text begins with `-` and is no literal.
    pub fn new_with_default(input: Option<&str>, default: i32) -> (result: Number)
        requires
            Number::resolve(text_of(input), default as int) <= i32::MAX,
        ensures
            result.0 == Number::resolve(text_of(input), default as int),
    {
        let num: i32 = match input {
            Some(text) => match read_literal(text) {
                Some(value) => value,
                None => if text.unicode_len() > 0 && text.get_char(0) == '-' {
                    -default
                } else {
                    default
                },
            },
            None => default,
        };
        Number(num)
    }

    /// Keeps the magnitude and takes the sign that `sign` names.
    pub fn set_sign(&mut self, sign: &str)
        requires
            old(self).0 > i32::MIN,
        ensures
            final(self).0 == Number::signed(old(self).0 as int, sign@),
    {
        let val: i32 = if self.0 < 0 { -self.0 } else { self.0 };
        let minus = sign.unicode_len() == 1 && sign.get_char(0) == '-';
        proof {
            assert(seq!['-'].len() == 1 && seq!['-'][0] == '-');
            if minus {
                assert(sign@ =~= seq!['-']);
            }
        }
        self.0 = if minus { -val } else { val };
    }
}

/// The characters of an optional text.
pub open spec fn text_of(input: Option<&str>) -> Option<Seq<char>> {
    match input {
        Some(s) => Some(s@),
        None => None,
    }
}

/// One additive term: `coefficient · variable^degree`, or a constant where
/// there is no variable.
#[derive(Debug, PartialEq)]
pub struct Monomial<'a> {
    pub coefficient: Number,
    pub character: Option<&'a str>,
    pub degree: Number,
}

/// The mathematical content of a [`Monomial`].
pub struct MonomialView {
    pub coefficient: int,
    pub variable: Option<Seq<char>>,
    pub exponent: int,
}

impl MonomialView {
    /// The power of the variable that the term contributes to: 2 or 1 for a
    /// term with a variable and that exponent, 0 for a term without variable
    /// whose exponent is the default 1. Any other term has no place in a
    /// quadratic.
    pub open spec fn power(self) -> Option<int> {
        if self.variable is Some && self.exponent == 2 {
            Some(2)
        } else if self.variable is Some && self.exponent == 1 {
            Some(1)
        } else if self.variable is None && self.exponent == 1 {
            Some(0)
        } else {
            None
        }
    }

    /// What the term adds to the coefficient of `power`.
    pub open spec fn share(self, power: int) -> int {
        if self.power() == Some(power) {
            self.coefficient
        } else {
            0
        }
    }
}

impl<'a> View for Monomial<'a> {
    type V = MonomialView;

    open spec fn view(&self) -> MonomialView {
        MonomialView {
            coefficient: self.coefficient.0 as int,
            variable: text_of(self.character),
            exponent: self.degree.0 as int,
        }
    }
}

impl<'a> Monomial<'a> {
    /// The term `coefficient · character^degree`; a constant where `character`
    /// is `None`.
    pub fn new(coefficient: Number, character: Option<&'a str>, degree: Number) -> (result: Self)
        ensures
            result.coefficient == coefficient,
            result.character == character,
            result.degree == degree,
    {
        Self { coefficient, character, degree }
    }
}

/// The contents of a list of monomials, term by term.
pub open spec fn terms_of(monomials: Seq<Monomial>) -> Seq<MonomialView> {
    Seq::new(monomials.len(), |i: int| monomials[i]@)
}

/// The variable of the first term at or after `from` that has one.
pub open spec fn first_variable(terms: Seq<MonomialView>, from: int) -> Option<Seq<char>>
    decreases terms.len() - from,
{
    if from < 0 || from >= terms.len() {
        None
    } else if terms[from].variable is Some {
        terms[from].variable
    } else {
        first_variable(terms, from + 1)
    }
}

/// The variable of the first term at or after `from` that has one other than
/// `name`.
pub open spec fn first_other_variable(
    terms: Seq<MonomialView>,
    name: Seq<char>,
    from: int,
) -> Option<Seq<char>>
    decreases terms.len() - from,
{
    if from < 0 || from >= terms.len() {
        None
    } else if terms[from].variable is Some && terms[from].variable != Some(name) {
        terms[from].variable
    } else {
        first_other_variable(terms, name, from + 1)
    }
}

/// Does every term have a place in a quadratic?
pub open spec fn all_placed(terms: Seq<MonomialView>) -> bool {
    forall|i: int| 0 <= i < terms.len() ==> (#[trigger] terms[i]).power() is Some
}

/// The sum of the coefficients of the terms of the given power.
pub open spec fn coefficient_sum(terms: Seq<MonomialView>, power: int) -> int
    decreases terms.len(),
{
    if terms.len() == 0 {
        0
    } else {
        coefficient_sum(terms.drop_last(), power) + terms.last().share(power)
    }
}

/// Does `v` fit in 32 bits?
pub open spec fn fits_i32(v: int) -> bool {
    i32::MIN <= v <= i32::MAX
}

/// The canonical form of a sum of terms, or the reason why it has none.
///
/// Two different variable names are reported first, with the first name of
/// the list and the first name that differs from it; then a term that has no
/// place in a quadratic; then a sum that does not fit in 32 bits.
pub open spec fn reduce(terms: Seq<MonomialView>) -> std::result::Result<QuadraticView, ErrorView> {
    let name = first_variable(terms, 0);
    let a = coefficient_sum(terms, 2);
    let b = coefficient_sum(terms, 1);
    let c = coefficient_sum(terms, 0);
    if name is Some && first_other_variable(terms, name->0, 0) is Some {
        Err(
            ErrorView::InvalidCharacter {
                expected: name->0,
                found: first_other_variable(terms, name->0, 0)->0,
            },
        )
    } else if !all_placed(terms) {
        Err(ErrorView::InvalidQuadratic)
    } else if !(fits_i32(a) && fits_i32(b) && fits_i32(c)) {
        Err(ErrorView::Overflow)
    } else {
        Ok(
            QuadraticView {
                variable: if name is Some { name->0 } else { Seq::empty() },
                a,
                b,
                c,
            },
        )
    }
}

/// The canonical form `a·v² + b·v + c` in the variable `character`.
#[derive(Debug, PartialEq)]
pub struct Quadratic {
    pub character: String,
    pub a: i32,
    pub b: i32,
    pub c: i32,
}

/// The mathematical content of a [`Quadratic`].
pub struct QuadraticView {
    pub variable: Seq<char>,
    pub a: int,
    pub b: int,
    pub c: int,
}

impl QuadraticView {
    /// The form with the three coefficients negated.
    pub open spec fn negated(self) -> QuadraticView {
        QuadraticView { variable: self.variable, a: -self.a, b: -self.b, c: -self.c }
    }

    /// The termwise sum, in the variable of `self`.
    pub open spec fn plus(self, rhs: QuadraticView) -> QuadraticView {
        QuadraticView {
            variable: self.variable,
            a: self.a + rhs.a,
            b: self.b + rhs.b,
            c: self.c + rhs.c,
        }
    }

    /// `b² − 4ac`.
    pub open spec fn discriminant(self) -> int {
        self.b * self.b - 4 * self.a * self.c
    }

    /// The root `(−b + s)/(2a)`, or `(−b − s)/(2a)` where `plus` is false, for
    /// the square root `s` of the discriminant.
    pub open spec fn root(self, s: real, plus: bool) -> real {
        if plus {
            ((-self.b) as real + s) / ((2 * self.a) as real)
        } else {
            ((-self.b) as real - s) / ((2 * self.a) as real)
        }
    }

    /// Of two values that stand for the roots `(−b − √d)/(2a)` and
    /// `(−b + √d)/(2a)`, the one of the lower root: the first where `a > 0`,
    /// else the second.
    pub open spec fn lower<T>(self, minus: T, plus: T) -> T {
        if self.a > 0 {
            minus
        } else {
            plus
        }
    }

    /// Of two values that stand for the roots `(−b − √d)/(2a)` and
    /// `(−b + √d)/(2a)`, the one of the upper root.
    pub open spec fn upper<T>(self, minus: T, plus: T) -> T {
        if self.a > 0 {
            plus
        } else {
            minus
        }
    }

    /// Do the three coefficients fit in 32 bits?
    pub open spec fn fits(self) -> bool {
        fits_i32(self.a) && fits_i32(self.b) && fits_i32(self.c)
    }
}

impl View for Quadratic {
    type V = QuadraticView;

    open spec fn view(&self) -> QuadraticView {
        QuadraticView {
            variable: self.character@,
            a: self.a as int,
            b: self.b as int,
            c: self.c as int,
        }
    }
}

impl Quadratic {
    /// The form `a·v² + b·v + c` in the variable `character`.
    pub fn new(character: String, a: i32, b: i32, c: i32) -> (result: Self)
        ensures
            result@ == (QuadraticView {
                variable: character@,
                a: a as int,
                b: b as int,
                c: c as int,
            }),
    {
        Self { character, a, b, c }
    }

    /// Folds a list of terms into the canonical form.
    pub fn from_monomials(monomials: Vec<Monomial>) -> (result: Result<'static, Self>)
        ensures
            match result {
                Ok(q) => reduce(terms_of(monomials@)) == Ok::<QuadraticView, ErrorView>(q@),
                Err(e) => reduce(terms_of(monomials@)) == Err::<QuadraticView, ErrorView>(e@),
            },
    {
        let ghost terms = terms_of(monomials@);
        let n: usize = monomials.len();
        let mut name: Option<&str> = None;
        let mut i: usize = 0;
        while i < n
            invariant
                n == monomials.len(),
                terms == terms_of(monomials@),
                i <= n,
                match name {
                    None => first_variable(terms, 0) == first_variable(terms, i as int)
                        && forall|j: int| 0 <= j < i ==> (#[trigger] terms[j]).variable is None,
                    Some(v) => first_variable(terms, 0) == Some(v@) && first_other_variable(
                        terms,
                        v@,
                        0,
                    ) == first_other_variable(terms, v@, i as int),
                },
            decreases n - i,
        {
            assert(terms[i as int] == monomials[i as int]@);
            match monomials[i].character {
                None => {},
                Some(found) => match name {
                    None => {
                        proof {
                            lemma_no_other_before(terms, found@, 0, i as int);
                        }
                        name = Some(found);
                    },
                    Some(expected) => {
                        if !same_text(found, expected) {
                            return Err(
                                Error::InvalidCharacter {
                                    expected: expected.to_owned(),
                                    found: found.to_owned(),
                                },
                            );
                        }
                    },
                },
            }
            i += 1;
        }
        assert(text_of(name) == first_variable(terms, 0));
        assert(name is Some ==> first_other_variable(terms, name->0@, 0) is None);
        let mut a: i128 = 0;
        let mut b: i128 = 0;
        let mut c: i128 = 0;
        let mut k: usize = 0;
        while k < n
            invariant
                n == monomials.len(),
                terms == terms_of(monomials@),
                k <= n,
                text_of(name) == first_variable(terms, 0),
                name is Some ==> first_other_variable(terms, name->0@, 0) is None,
                a == coefficient_sum(terms.take(k as int), 2),
                b == coefficient_sum(terms.take(k as int), 1),
                c == coefficient_sum(terms.take(k as int), 0),
                -2147483648 * k <= a <= 2147483648 * k,
                -2147483648 * k <= b <= 2147483648 * k,
                -2147483648 * k <= c <= 2147483648 * k,
                forall|j: int| 0 <= j < k ==> (#[trigger] terms[j]).power() is Some,
            decreases n - k,
        {
            let m = &monomials[k];
            let val: i128 = m.coefficient.0 as i128;
            proof {
                assert(terms[k as int] == monomials[k as int]@);
                assert(terms.take(k + 1).drop_last() =~= terms.take(k as int));
                assert(terms.take(k + 1).last() == terms[k as int]);
            }
            if m.character.is_some() && m.degree.0 == 2 {
                a = a + val;
            } else if m.character.is_some() && m.degree.0 == 1 {
                b = b + val;
            } else if m.character.is_none() && m.degree.0 == 1 {
                c = c + val;
            } else {
                assert(terms[k as int].power() is None);
                return Err(Error::InvalidQuadratic);
            }
            k += 1;
        }
        assert(terms.take(n as int) =~= terms);
        if a < -2147483648 || a > 2147483647 || b < -2147483648 || b > 2147483647 || c
            < -2147483648 || c > 2147483647 {
            return Err(Error::Overflow);
        }
        let character = match name {
            Some(v) => v.to_owned(),
            None => String::new(),
        };
        Ok(Self { character, a: a as i32, b: b as i32, c: c as i32 })
    }

    /// Negates the three coefficients. None of them may be `i32::MIN`, whose
    /// negation does not fit.
    pub fn reverse(&mut self)
        requires
            old(self)@.negated().fits(),
        ensures
            final(self)@ == old(self)@.negated(),
    {
        self.a = -self.a;
        self.b = -self.b;
        self.c = -self.c;
    }

    /// The discriminant `b² − 4ac`, which must fit in 32 bits.
    pub fn get_d(&self) -> (d: i32)
        requires
            fits_i32(self@.discriminant()),
        ensures
            d == self@.discriminant(),
    {
        let d = self.discriminant();
        d as i32
    }

    /// The discriminant `b² − 4ac` in full width.
    pub fn discriminant(&self) -> (d: i128)
        ensures
            d == self@.discriminant(),
    {
        let a: i128 = self.a as i128;
        let b: i128 = self.b as i128;
        let c: i128 = self.c as i128;
        assert(0 <= b * b <= 0x4000_0000_0000_0000) by (nonlinear_arith)
            requires
                -0x8000_0000 <= b <= 0x7fff_ffff,
        ;
        assert(-0x4000_0000_0000_0000 <= a * c <= 0x4000_0000_0000_0000) by (nonlinear_arith)
            requires
                -0x8000_0000 <= a <= 0x7fff_ffff,
                -0x8000_0000 <= c <= 0x7fff_ffff,
        ;
        assert(4 * a * c == 4 * (a * c)) by (nonlinear_arith);
        b * b - 4 * (a * c)
    }
}

impl std::ops::Add for Quadratic {
    type Output = Self;

    /// The termwise sum, in the variable of the left operand.
    fn add(self, rhs: Self) -> (result: Self) {
        Self { character: self.character, a: self.a + rhs.a, b: self.b + rhs.b, c: self.c + rhs.c }
    }
}

impl vstd::std_specs::ops::AddSpecImpl for Quadratic {
    open spec fn obeys_add_spec() -> bool {
        true
    }

    open spec fn add_req(self, rhs: Self) -> bool {
        self@.plus(rhs@).fits()
    }

    open spec fn add_spec(self, rhs: Self) -> Self {
        Quadratic {
            character: self.character,
            a: (self.a + rhs.a) as i32,
            b: (self.b + rhs.b) as i32,
            c: (self.c + rhs.c) as i32,
        }
    }
}

/// Terms without a variable are passed over: from `from` up to the first
/// term that has a variable, `name`, the first variable is `name`, and no
/// other variable is met.
proof fn lemma_no_other_before(terms: Seq<MonomialView>, name: Seq<char>, from: int, i: int)
    requires
        0 <= from <= i < terms.len(),
        forall|j: int| 0 <= j < i ==> (#[trigger] terms[j]).variable is None,
        terms[i].variable == Some(name),
    ensures
        first_variable(terms, from) == Some(name),
        first_other_variable(terms, name, from) == first_other_variable(terms, name, i + 1),
    decreases i - from,
{
    if from < i {
        assert(terms[from].variable is None);
        lemma_no_other_before(terms, name, from + 1, i);
    }
}

/// A comparison against zero.
#[derive(Debug, PartialEq, Eq, Clone, Copy, Structural)]
pub enum Sign {
    /// `<`
    Lt,
    /// `≤`
    Lte,
    /// `>`
    Gt,
    /// `≥`
    Gte,
}

impl Sign {
    /// The relation that a token stands for, if it is one of the six tokens.
    pub open spec fn of_token(s: Seq<char>) -> Option<Sign> {
        if s.len() == 1 && s[0] == '<' {
            Some(Sign::Lt)
        } else if (s.len() == 2 && s[0] == '<' && s[1] == '=') || (s.len() == 1 && s[0] == '≤') {
            Some(Sign::Lte)
        } else if s.len() == 1 && s[0] == '>' {
            Some(Sign::Gt)
        } else if (s.len() == 2 && s[0] == '>' && s[1] == '=') || (s.len() == 1 && s[0] == '≥') {
            Some(Sign::Gte)
        } else {
            None
        }
    }

    /// The relation with its direction swapped.
    pub open spec fn reversed(&self) -> Sign {
        match *self {
            Sign::Lt => Sign::Gt,
            Sign::Lte => Sign::Gte,
            Sign::Gt => Sign::Lt,
            Sign::Gte => Sign::Lte,
        }
    }

    /// Reads a relation from a token that is exactly one of `<`, `<=`, `≤`,
    /// `>`, `>=`, `≥`; any other text is returned in the error.
    pub fn new(s: &str) -> (result: Result<'static, Sign>)
        ensures
            match result {
                Ok(sign) => Sign::of_token(s@) == Some(sign),
                Err(e) => Sign::of_token(s@) is None && e@ == ErrorView::InvalidIneqSign(s@),
            },
    {
        let n: usize = s.unicode_len();
        if n == 1 {
            let c = s.get_char(0);
            if c == '<' {
                return Ok(Sign::Lt);
            } else if c == '≤' {
                return Ok(Sign::Lte);
            } else if c == '>' {
                return Ok(Sign::Gt);
            } else if c == '≥' {
                return Ok(Sign::Gte);
            }
        } else if n == 2 && s.get_char(1) == '=' {
            let c = s.get_char(0);
            if c == '<' {
                return Ok(Sign::Lte);
            } else if c == '>' {
                return Ok(Sign::Gte);
            }
        }
        Err(Error::InvalidIneqSign(s.to_owned()))
    }

    /// Swaps `<` with `>` and `≤` with `≥`.
    #[verifier::when_used_as_spec(reversed)]
    pub fn reverse(&self) -> (result: Sign)
        ensures
            result == self.reversed(),
    {
        match self {
            Sign::Lt => Sign::Gt,
            Sign::Lte => Sign::Gte,
            Sign::Gt => Sign::Lt,
            Sign::Gte => Sign::Lte,
        }
    }
}

/// The shape of the set of numbers that satisfy a quadratic inequality, by
/// its roots `r1 ≤ r2`.
#[derive(Debug, PartialEq, Eq, Clone, Copy, Structural)]
pub enum Solution {
    /// No number.
    Nothing,
    /// Every number.
    Everything,
    /// `r1 < v < r2`.
    Between,
    /// `r1 ≤ v ≤ r2`.
    BetweenOrEqual,
    /// `v < r1` or `v > r2`.
    Outside,
    /// `v ≤ r1` or `v ≥ r2`.
    OutsideOrEqual,
    /// `v = r1`, the double root.
    Root,
    /// Every number but the double root.
    AllButRoot,
}

/// A canonical form compared against zero: `a·v² + b·v + c <sign> 0`.
#[derive(Debug, PartialEq)]
pub struct QuadraticInequality {
    pub quadratic: Quadratic,
    pub sign: Sign,
}

/// The mathematical content of a [`QuadraticInequality`].
pub struct InequalityView {
    pub quadratic: QuadraticView,
    pub sign: Sign,
}

impl InequalityView {
    /// The relation after division by the leading coefficient: the relation
    /// itself where `a > 0`, else its reversal.
    pub open spec fn effective_sign(self) -> Sign {
        if self.quadratic.a > 0 {
            self.sign
        } else {
            self.sign.reversed()
        }
    }

    /// The shape of the solution, by the sign of the discriminant and the
    /// effective relation.
    pub open spec fn solution(self) -> Solution {
        let d = self.quadratic.discriminant();
        let sign = self.effective_sign();
        if d < 0 {
            match sign {
                Sign::Lt | Sign::Lte => Solution::Nothing,
                Sign::Gt | Sign::Gte => Solution::Everything,
            }
        } else if d > 0 {
            match sign {
                Sign::Lt => Solution::Between,
                Sign::Lte => Solution::BetweenOrEqual,
                Sign::Gt => Solution::Outside,
                Sign::Gte => Solution::OutsideOrEqual,
            }
        } else {
            match sign {
                Sign::Lt => Solution::Nothing,
                Sign::Lte => Solution::Root,
                Sign::Gt => Solution::AllButRoot,
                Sign::Gte => Solution::Everything,
            }
        }
    }

    /// The solution in words. `minus` and `plus` show the roots
    /// `(−b − √d)/(2a)` and `(−b + √d)/(2a)`; the lower of the two is named
    /// first.
    pub open spec fn solution_text(self, minus: Seq<char>, plus: Seq<char>) -> Seq<char> {
        self.solution().text(
            self.quadratic.variable,
            self.quadratic.lower(minus, plus),
            self.quadratic.upper(minus, plus),
        )
    }
}

impl Solution {
    /// The shape in words, for the variable `v` and the roots `r1` and `r2` as
    /// they are to be shown.
    pub open spec fn text(self, v: Seq<char>, r1: Seq<char>, r2: Seq<char>) -> Seq<char> {
        match self {
            Solution::Nothing => "no solution"@,
            Solution::Everything => "all real numbers"@,
            Solution::Between => r1 + " < "@ + v + " < "@ + r2,
            Solution::BetweenOrEqual => r1 + " ≤ "@ + v + " ≤ "@ + r2,
            Solution::Outside => v + " < "@ + r1 + " OR "@ + v + " > "@ + r2,
            Solution::OutsideOrEqual => v + " ≤ "@ + r1 + " OR "@ + v + " ≥ "@ + r2,
            Solution::Root => v + " = "@ + r1,
            Solution::AllButRoot => "all real numbers with "@ + v + " ≠ "@ + r1,
        }
    }

    /// Writes the shape out for the variable `v` and the two roots as shown.
    pub fn render(&self, v: &str, r1: &str, r2: &str) -> (result: String)
        ensures
            result@ == self.text(v@, r1@, r2@),
    {
        match self {
            Solution::Nothing => "no solution".to_owned(),
            Solution::Everything => "all real numbers".to_owned(),
            Solution::Between => {
                let mut out = r1.to_owned();
                out.append(" < ");
                out.append(v);
                out.append(" < ");
                out.append(r2);
                out
            },
            Solution::BetweenOrEqual => {
                let mut out = r1.to_owned();
                out.append(" ≤ ");
                out.append(v);
                out.append(" ≤ ");
                out.append(r2);
                out
            },
            Solution::Outside => {
                let mut out = v.to_owned();
                out.append(" < ");
                out.append(r1);
                out.append(" OR ");
                out.append(v);
                out.append(" > ");
                out.append(r2);
                out
            },
            Solution::OutsideOrEqual => {
                let mut out = v.to_owned();
                out.append(" ≤ ");
                out.append(r1);
                out.append(" OR ");
                out.append(v);
                out.append(" ≥ ");
                out.append(r2);
                out
            },
            Solution::Root => {
                let mut out = v.to_owned();
                out.append(" = ");
                out.append(r1);
                out
            },
            Solution::AllButRoot => {
                let mut out = "all real numbers with ".to_owned();
                out.append(v);
                out.append(" ≠ ");
                out.append(r1);
                out
            },
        }
    }
}

impl View for QuadraticInequality {
    type V = InequalityView;

    open spec fn view(&self) -> InequalityView {
        InequalityView { quadratic: self.quadratic@, sign: self.sign }
    }
}

impl QuadraticInequality {
    /// Can `right` be moved to the left of `left <sign> right` within 32 bits?
    pub open spec fn movable(left: QuadraticView, right: QuadraticView) -> bool {
        right.negated().fits() && left.plus(right.negated()).fits()
    }

    /// The inequality `quadratic <sign> 0`.
    pub fn new(quadratic: Quadratic, sign: Sign) -> (result: Self)
        ensures
            result.quadratic == quadratic,
            result.sign == sign,
    {
        Self { quadratic, sign }
    }

    /// Tells whether [`QuadraticInequality::from_expr`] accepts the two sides.
    pub fn can_move(left: &Quadratic, right: &Quadratic) -> (result: bool)
        ensures
            result == Self::movable(left@, right@),
    {
        right.a != i32::MIN && right.b != i32::MIN && right.c != i32::MIN && {
            let a: i64 = left.a as i64 - right.a as i64;
            let b: i64 = left.b as i64 - right.b as i64;
            let c: i64 = left.c as i64 - right.c as i64;
            -2147483648 <= a && a <= 2147483647 && -2147483648 <= b && b <= 2147483647
                && -2147483648 <= c && c <= 2147483647
        }
    }

    /// Moves the right side of `left <sign> right` to the left: negates it and
    /// adds it to the left side, whose variable is kept.
    pub fn from_expr(input: (Quadratic, Sign, Quadratic)) -> (result: Self)
        requires
            Self::movable(input.0@, input.2@),
        ensures
            result@ == (InequalityView {
                quadratic: input.0@.plus(input.2@.negated()),
                sign: input.1,
            }),
    {
        let (left, sign, mut right) = input;
        right.reverse();
        Self { quadratic: left + right, sign }
    }

    /// The shape of the solution.
    pub fn solution(&self) -> (result: Solution)
        ensures
            result == self@.solution(),
    {
        let d: i128 = self.quadratic.discriminant();
        let sign = if self.quadratic.a > 0 {
            self.sign
        } else {
            self.sign.reverse()
        };
        if d < 0 {
            match sign {
                Sign::Lt | Sign::Lte => Solution::Nothing,
                Sign::Gt | Sign::Gte => Solution::Everything,
            }
        } else if d > 0 {
            match sign {
                Sign::Lt => Solution::Between,
                Sign::Lte => Solution::BetweenOrEqual,
                Sign::Gt => Solution::Outside,
                Sign::Gte => Solution::OutsideOrEqual,
            }
        } else {
            match sign {
                Sign::Lt => Solution::Nothing,
                Sign::Lte => Solution::Root,
                Sign::Gt => Solution::AllButRoot,
                Sign::Gte => Solution::Everything,
            }
        }
    }

    /// The solution in words.
    ///
    /// `minus` and `plus` are the roots `(−b − √d)/(2a)` and `(−b + √d)/(2a)`
    /// as they are to be shown. Which of them is the lower one is decided
    /// here, by the sign of `a`; they are read only where the shape of the
    /// solution names a root.
    pub fn get_solution(&self, minus: &str, plus: &str) -> (result: String)
        ensures
            result@ == self@.solution_text(minus@, plus@),
    {
        let (r1, r2) = if self.quadratic.a > 0 {
            (minus, plus)
        } else {
            (plus, minus)
        };
        self.solution().render(self.quadratic.character.as_str(), r1, r2)
    }
}

} // verus!
