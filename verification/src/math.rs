//! The grammar layer: a verified recursive-descent evaluator for arithmetic
//! expressions over ASCII text.
//!
//! Grammar, from loosest to tightest binding:
//!
//! ```text
//! expr   := term (("+" | "-") term)*      left-associative
//! term   := factor (("*" | "/") factor)*  left-associative
//! factor := power ("^" power)*            right-associative
//! power  := NUMBER | "(" expr ")" | "-" factor
//! ```
//!
//! `NUMBER` is one or more ASCII decimal digits.  Values are folded to an
//! `i64` while parsing; no syntax tree is kept.  Division truncates toward
//! zero.  A negative exponent, division by zero, or any intermediate result
//! outside the `i64` range is a domain error, reported as
//! [`ParseError::DomainError`] and never a crash.  A failed match consumes
//! nothing; since the three `power` alternatives start with distinct
//! characters, alternation is decided by one character of lookahead, which
//! agrees with trying the alternatives in order.
//!
//! Each `spec_` function is the model of the rule of the same name: from the
//! input sequence and a start offset to either the folded value with the
//! offset of the first unconsumed character, or an error.  A repetition tier
//! that fails to extend returns what it has, leaving the failed attempt
//! unconsumed; only domain errors abort the whole parse.

use vstd::prelude::*;

use crate::parsec::ParseError;
use crate::parsec::is_digit_char;

verus! {

/// The numeric value of an ASCII digit character, as an `i64`.
pub open spec fn digit_val(c: char) -> i64 {
    (c as u32 - 48) as i64
}

/// Consumes digits while they last, accumulating the decimal value onto
/// `acc`; a value outside the `i64` range is a domain error.
pub open spec fn spec_number_loop(s: Seq<char>, pos: int, acc: i64) -> Result<
    (i64, int),
    ParseError,
>
    decreases s.len() - pos,
{
    if pos < s.len() && is_digit_char(s[pos]) {
        match acc.checked_mul(10) {
            Some(m) => match m.checked_add(digit_val(s[pos])) {
                Some(v) => spec_number_loop(s, pos + 1, v),
                None => Err(ParseError::DomainError),
            },
            None => Err(ParseError::DomainError),
        }
    } else {
        Ok((acc, pos))
    }
}

/// Exponentiation of `b` by a non-negative exponent, checked at every step:
/// the first product outside the `i64` range is a domain error.
pub open spec fn spec_pow_rec(b: i64, e: int) -> Result<i64, ParseError>
    decreases e,
{
    if e <= 0 {
        Ok(1)
    } else {
        match spec_pow_rec(b, e - 1) {
            Ok(r) => match r.checked_mul(b) {
                Some(v) => Ok(v),
                None => Err(ParseError::DomainError),
            },
            Err(er) => Err(er),
        }
    }
}

/// Integer exponentiation as the grammar uses it: a negative exponent is a
/// domain error, otherwise [`spec_pow_rec`].
pub open spec fn spec_pow(b: i64, e: i64) -> Result<i64, ParseError> {
    if e < 0 {
        Err(ParseError::DomainError)
    } else {
        spec_pow_rec(b, e as int)
    }
}

/// The model of `expr`: a `term`, then the left fold of `expr`'s tail.
pub open spec fn spec_expr(s: Seq<char>, pos: int) -> Result<(i64, int), ParseError>
    decreases s.len() - pos, 3int,
{
    match spec_term(s, pos) {
        Err(e) => Err(e),
        Ok((v, p)) => if pos < p <= s.len() {
            spec_expr_tail(s, p, v)
        } else {
            Ok((v, p))
        },
    }
}

/// The tail of `expr`: while a `"+"` or `"-"` follows, parse the next `term`
/// and fold it onto `acc` left to right with checked arithmetic.  A failed
/// `term` after the operator stops the tail before the operator; a domain
/// error aborts.
pub open spec fn spec_expr_tail(s: Seq<char>, pos: int, acc: i64) -> Result<
    (i64, int),
    ParseError,
>
    decreases s.len() - pos, 4int,
{
    if pos < s.len() && (s[pos] == '+' || s[pos] == '-') {
        match spec_term(s, pos + 1) {
            Err(ParseError::DomainError) => Err(ParseError::DomainError),
            Err(_) => Ok((acc, pos)),
            Ok((v, p2)) => {
                let folded = if s[pos] == '+' {
                    acc.checked_add(v)
                } else {
                    acc.checked_sub(v)
                };
                match folded {
                    None => Err(ParseError::DomainError),
                    Some(a2) => if pos < p2 <= s.len() {
                        spec_expr_tail(s, p2, a2)
                    } else {
                        Ok((a2, p2))
                    },
                }
            },
        }
    } else {
        Ok((acc, pos))
    }
}

/// The model of `term`: a `factor`, then the left fold of `term`'s tail.
pub open spec fn spec_term(s: Seq<char>, pos: int) -> Result<(i64, int), ParseError>
    decreases s.len() - pos, 2int,
{
    match spec_factor(s, pos) {
        Err(e) => Err(e),
        Ok((v, p)) => if pos < p <= s.len() {
            spec_term_tail(s, p, v)
        } else {
            Ok((v, p))
        },
    }
}

/// The tail of `term`: while a `"*"` or `"/"` follows, parse the next
/// `factor` and fold it onto `acc` left to right.  Multiplication is
/// overflow-checked; division truncates toward zero, and division by zero or
/// an unrepresentable quotient is a domain error.
pub open spec fn spec_term_tail(s: Seq<char>, pos: int, acc: i64) -> Result<
    (i64, int),
    ParseError,
>
    decreases s.len() - pos, 4int,
{
    if pos < s.len() && (s[pos] == '*' || s[pos] == '/') {
        match spec_factor(s, pos + 1) {
            Err(ParseError::DomainError) => Err(ParseError::DomainError),
            Err(_) => Ok((acc, pos)),
            Ok((v, p2)) => {
                let folded = if s[pos] == '*' {
                    acc.checked_mul(v)
                } else {
                    acc.checked_div(v)
                };
                match folded {
                    None => Err(ParseError::DomainError),
                    Some(a2) => if pos < p2 <= s.len() {
                        spec_term_tail(s, p2, a2)
                    } else {
                        Ok((a2, p2))
                    },
                }
            },
        }
    } else {
        Ok((acc, pos))
    }
}

/// The model of `factor`: a `power` base, then the right fold of the
/// exponent tail, combined by checked exponentiation.  With no `"^"` the
/// tail is the identity exponent `1`, so the factor is the base itself.
pub open spec fn spec_factor(s: Seq<char>, pos: int) -> Result<(i64, int), ParseError>
    decreases s.len() - pos, 1int,
{
    match spec_power(s, pos) {
        Err(e) => Err(e),
        Ok((b, p)) => if pos < p <= s.len() {
            match spec_factor_tail(s, p) {
                Err(e) => Err(e),
                Ok((e2, p3)) => match spec_pow(b, e2) {
                    Ok(w) => Ok((w, p3)),
                    Err(er) => Err(er),
                },
            }
        } else {
            Ok((b, p))
        },
    }
}

/// The exponent tail of `factor`: the value of `("^" power)*` folded right
/// to left, seeded with the identity exponent `1`, together with the offset
/// where the tail stops.  A failed `power` after `"^"` stops the tail before
/// the `"^"`.
pub open spec fn spec_factor_tail(s: Seq<char>, pos: int) -> Result<(i64, int), ParseError>
    decreases s.len() - pos, 4int,
{
    if pos < s.len() && s[pos] == '^' {
        match spec_power(s, pos + 1) {
            Err(ParseError::DomainError) => Err(ParseError::DomainError),
            Err(_) => Ok((1, pos)),
            Ok((v, p2)) => if pos < p2 <= s.len() {
                match spec_factor_tail(s, p2) {
                    Err(e) => Err(e),
                    Ok((e2, p3)) => match spec_pow(v, e2) {
                        Ok(w) => Ok((w, p3)),
                        Err(er) => Err(er),
                    },
                }
            } else {
                Ok((1, pos))
            },
        }
    } else {
        Ok((1, pos))
    }
}

/// The model of `power`: a number, a parenthesized `expr`, or `"-"` applied
/// to a whole `factor` (so `-2^2` negates `2^2`).  The three alternatives
/// start with distinct characters.
pub open spec fn spec_power(s: Seq<char>, pos: int) -> Result<(i64, int), ParseError>
    decreases s.len() - pos, 0int,
{
    if pos >= s.len() {
        Err(ParseError::UnexpectedEndOfInput)
    } else if is_digit_char(s[pos]) {
        spec_number_loop(s, pos, 0)
    } else if s[pos] == '(' {
        match spec_expr(s, pos + 1) {
            Err(e) => Err(e),
            Ok((v, p)) => if p < s.len() && s[p] == ')' {
                Ok((v, p + 1))
            } else if p >= s.len() {
                Err(ParseError::UnexpectedEndOfInput)
            } else {
                Err(ParseError::UnexpectedCharacter)
            },
        }
    } else if s[pos] == '-' {
        match spec_factor(s, pos + 1) {
            Err(e) => Err(e),
            Ok((v, p)) => match (0 as i64).checked_sub(v) {
                Some(n) => Ok((n, p)),
                None => Err(ParseError::DomainError),
            },
        }
    } else {
        Err(ParseError::UnexpectedCharacter)
    }
}

/// The model of the whole evaluator: `expr` must consume the entire input.
pub open spec fn spec_evaluate(s: Seq<char>) -> Result<i64, ParseError> {
    match spec_expr(s, 0) {
        Ok((v, p)) => if p == s.len() {
            Ok(v)
        } else {
            Err(ParseError::IncompleteParse)
        },
        Err(e) => Err(e),
    }
}

fn number_loop(input: &Vec<char>, pos: usize, acc: i64) -> (r: Result<(i64, usize), ParseError>)
    requires
        pos <= input@.len(),
    ensures
        match r {
            Ok((v, p2)) => pos <= p2 <= input@.len() && spec_number_loop(input@, pos as int, acc)
                == Ok::<(i64, int), ParseError>((v, p2 as int)) && (pos < input@.len()
                && is_digit_char(input@[pos as int]) ==> pos < p2),
            Err(e) => spec_number_loop(input@, pos as int, acc) == Err::<(i64, int), ParseError>(
                e,
            ),
        },
    decreases input@.len() - pos,
{
    if pos < input.len() {
        let c = input[pos];
        let u = c as u32;
        if 48 <= u && u <= 57 {
            let d = (u - 48) as i64;
            match acc.checked_mul(10) {
                Some(m) => match m.checked_add(d) {
                    Some(v) => number_loop(input, pos + 1, v),
                    None => Err(ParseError::DomainError),
                },
                None => Err(ParseError::DomainError),
            }
        } else {
            Ok((acc, pos))
        }
    } else {
        Ok((acc, pos))
    }
}

proof fn lemma_pow_rec_one(e: int)
    requires
        e >= 0,
    ensures
        spec_pow_rec(1, e) == Ok::<i64, ParseError>(1),
    decreases e,
{
    if e > 0 {
        lemma_pow_rec_one(e - 1);
    }
}

proof fn lemma_pow_rec_zero(e: int)
    requires
        e >= 1,
    ensures
        spec_pow_rec(0, e) == Ok::<i64, ParseError>(0),
    decreases e,
{
    if e > 1 {
        lemma_pow_rec_zero(e - 1);
    } else {
        assert(spec_pow_rec(0 as i64, 0) == Ok::<i64, ParseError>(1));
    }
}

proof fn lemma_pow_rec_neg_one(e: int)
    requires
        e >= 0,
    ensures
        spec_pow_rec(-1 as i64, e) == Ok::<i64, ParseError>(
            if e % 2 == 0 {
                1 as i64
            } else {
                -1 as i64
            },
        ),
    decreases e,
{
    if e > 0 {
        lemma_pow_rec_neg_one(e - 1);
    }
}

proof fn lemma_pow_rec_err_absorbs(b: i64, e1: int, e2: int)
    requires
        0 <= e1 <= e2,
        spec_pow_rec(b, e1) == Err::<i64, ParseError>(ParseError::DomainError),
    ensures
        spec_pow_rec(b, e2) == Err::<i64, ParseError>(ParseError::DomainError),
    decreases e2,
{
    if e2 > e1 {
        lemma_pow_rec_err_absorbs(b, e1, e2 - 1);
    }
}

/// Checked integer exponentiation; agrees with [`spec_pow`].
fn pow_checked(b: i64, e: i64) -> (r: Result<i64, ParseError>)
    ensures
        r == spec_pow(b, e),
{
    if e < 0 {
        Err(ParseError::DomainError)
    } else if b == 1 {
        proof {
            lemma_pow_rec_one(e as int);
        }
        Ok(1)
    } else if b == 0 {
        if e == 0 {
            Ok(1)
        } else {
            proof {
                lemma_pow_rec_zero(e as int);
            }
            Ok(0)
        }
    } else if b == -1 {
        proof {
            lemma_pow_rec_neg_one(e as int);
        }
        if e % 2 == 0 {
            Ok(1)
        } else {
            Ok(-1)
        }
    } else {
        let mut r: i64 = 1;
        let mut i: i64 = 0;
        while i < e
            invariant
                0 <= i <= e,
                spec_pow_rec(b, i as int) == Ok::<i64, ParseError>(r),
            decreases e - i,
        {
            match r.checked_mul(b) {
                Some(v) => {
                    r = v;
                    i = i + 1;
                },
                None => {
                    proof {
                        assert(spec_pow_rec(b, i as int + 1) == Err::<i64, ParseError>(
                            ParseError::DomainError,
                        ));
                        lemma_pow_rec_err_absorbs(b, i as int + 1, e as int);
                    }
                    return Err(ParseError::DomainError);
                },
            }
        }
        Ok(r)
    }
}

/// Parses and folds an `expr`; the executable side of [`spec_expr`].
pub fn p_expr(input: &Vec<char>, pos: usize) -> (r: Result<(i64, usize), ParseError>)
    requires
        pos <= input@.len(),
    ensures
        match r {
            Ok((v, p2)) => pos < p2 <= input@.len() && spec_expr(input@, pos as int)
                == Ok::<(i64, int), ParseError>((v, p2 as int)),
            Err(e) => spec_expr(input@, pos as int) == Err::<(i64, int), ParseError>(e),
        },
    decreases input@.len() - pos, 3int,
{
    match p_term(input, pos) {
        Err(e) => Err(e),
        Ok((v, p)) => expr_tail(input, p, v),
    }
}

fn expr_tail(input: &Vec<char>, pos: usize, acc: i64) -> (r: Result<(i64, usize), ParseError>)
    requires
        pos <= input@.len(),
    ensures
        match r {
            Ok((v, p2)) => pos <= p2 <= input@.len() && spec_expr_tail(input@, pos as int, acc)
                == Ok::<(i64, int), ParseError>((v, p2 as int)),
            Err(e) => spec_expr_tail(input@, pos as int, acc) == Err::<(i64, int), ParseError>(e),
        },
    decreases input@.len() - pos, 4int,
{
    if pos < input.len() && (input[pos] == '+' || input[pos] == '-') {
        match p_term(input, pos + 1) {
            Err(ParseError::DomainError) => Err(ParseError::DomainError),
            Err(_) => Ok((acc, pos)),
            Ok((v, p2)) => {
                let folded = if input[pos] == '+' {
                    acc.checked_add(v)
                } else {
                    acc.checked_sub(v)
                };
                match folded {
                    None => Err(ParseError::DomainError),
                    Some(a2) => expr_tail(input, p2, a2),
                }
            },
        }
    } else {
        Ok((acc, pos))
    }
}

/// Parses and folds a `term`; the executable side of [`spec_term`].
pub fn p_term(input: &Vec<char>, pos: usize) -> (r: Result<(i64, usize), ParseError>)
    requires
        pos <= input@.len(),
    ensures
        match r {
            Ok((v, p2)) => pos < p2 <= input@.len() && spec_term(input@, pos as int)
                == Ok::<(i64, int), ParseError>((v, p2 as int)),
            Err(e) => spec_term(input@, pos as int) == Err::<(i64, int), ParseError>(e),
        },
    decreases input@.len() - pos, 2int,
{
    match p_factor(input, pos) {
        Err(e) => Err(e),
        Ok((v, p)) => term_tail(input, p, v),
    }
}

fn term_tail(input: &Vec<char>, pos: usize, acc: i64) -> (r: Result<(i64, usize), ParseError>)
    requires
        pos <= input@.len(),
    ensures
        match r {
            Ok((v, p2)) => pos <= p2 <= input@.len() && spec_term_tail(input@, pos as int, acc)
                == Ok::<(i64, int), ParseError>((v, p2 as int)),
            Err(e) => spec_term_tail(input@, pos as int, acc) == Err::<(i64, int), ParseError>(e),
        },
    decreases input@.len() - pos, 4int,
{
    if pos < input.len() && (input[pos] == '*' || input[pos] == '/') {
        match p_factor(input, pos + 1) {
            Err(ParseError::DomainError) => Err(ParseError::DomainError),
            Err(_) => Ok((acc, pos)),
            Ok((v, p2)) => {
                let folded = if input[pos] == '*' {
                    acc.checked_mul(v)
                } else {
                    acc.checked_div(v)
                };
                match folded {
                    None => Err(ParseError::DomainError),
                    Some(a2) => term_tail(input, p2, a2),
                }
            },
        }
    } else {
        Ok((acc, pos))
    }
}

/// Parses and folds a `factor`; the executable side of [`spec_factor`].
pub fn p_factor(input: &Vec<char>, pos: usize) -> (r: Result<(i64, usize), ParseError>)
    requires
        pos <= input@.len(),
    ensures
        match r {
            Ok((v, p2)) => pos < p2 <= input@.len() && spec_factor(input@, pos as int)
                == Ok::<(i64, int), ParseError>((v, p2 as int)),
            Err(e) => spec_factor(input@, pos as int) == Err::<(i64, int), ParseError>(e),
        },
    decreases input@.len() - pos, 1int,
{
    match p_power(input, pos) {
        Err(e) => Err(e),
        Ok((b, p)) => match factor_tail(input, p) {
            Err(e) => Err(e),
            Ok((e2, p3)) => match pow_checked(b, e2) {
                Ok(w) => Ok((w, p3)),
                Err(er) => Err(er),
            },
        },
    }
}

fn factor_tail(input: &Vec<char>, pos: usize) -> (r: Result<(i64, usize), ParseError>)
    requires
        pos <= input@.len(),
    ensures
        match r {
            Ok((v, p2)) => pos <= p2 <= input@.len() && spec_factor_tail(input@, pos as int)
                == Ok::<(i64, int), ParseError>((v, p2 as int)),
            Err(e) => spec_factor_tail(input@, pos as int) == Err::<(i64, int), ParseError>(e),
        },
    decreases input@.len() - pos, 4int,
{
    if pos < input.len() && input[pos] == '^' {
        match p_power(input, pos + 1) {
            Err(ParseError::DomainError) => Err(ParseError::DomainError),
            Err(_) => Ok((1, pos)),
            Ok((v, p2)) => match factor_tail(input, p2) {
                Err(e) => Err(e),
                Ok((e2, p3)) => match pow_checked(v, e2) {
                    Ok(w) => Ok((w, p3)),
                    Err(er) => Err(er),
                },
            },
        }
    } else {
        Ok((1, pos))
    }
}

/// Parses a `power`; the executable side of [`spec_power`].
pub fn p_power(input: &Vec<char>, pos: usize) -> (r: Result<(i64, usize), ParseError>)
    requires
        pos <= input@.len(),
    ensures
        match r {
            Ok((v, p2)) => pos < p2 <= input@.len() && spec_power(input@, pos as int)
                == Ok::<(i64, int), ParseError>((v, p2 as int)),
            Err(e) => spec_power(input@, pos as int) == Err::<(i64, int), ParseError>(e),
        },
    decreases input@.len() - pos, 0int,
{
    if pos >= input.len() {
        Err(ParseError::UnexpectedEndOfInput)
    } else {
        let c = input[pos];
        let u = c as u32;
        if 48 <= u && u <= 57 {
            number_loop(input, pos, 0)
        } else if c == '(' {
            match p_expr(input, pos + 1) {
                Err(e) => Err(e),
                Ok((v, p)) => {
                    if p < input.len() && input[p] == ')' {
                        Ok((v, p + 1))
                    } else if p >= input.len() {
                        Err(ParseError::UnexpectedEndOfInput)
                    } else {
                        Err(ParseError::UnexpectedCharacter)
                    }
                },
            }
        } else if c == '-' {
            match p_factor(input, pos + 1) {
                Err(e) => Err(e),
                Ok((v, p)) => match (0 as i64).checked_sub(v) {
                    Some(n) => Ok((n, p)),
                    None => Err(ParseError::DomainError),
                },
            }
        } else {
            Err(ParseError::UnexpectedCharacter)
        }
    }
}

/// An evaluated arithmetic expression: the folded numeric result.
#[derive(Debug)]
pub struct Expr(i64);

impl Expr {
    /// The value this expression folded to.
    pub closed spec fn value(&self) -> i64 {
        self.0
    }

    /// Evaluates the whole of `text` as an expression.  Succeeds exactly
    /// when the model [`spec_evaluate`] does, with the same value.
    pub fn from_text(text: &str) -> (r: Result<Expr, ParseError>)
        ensures
            match r {
                Ok(ex) => spec_evaluate(text@) == Ok::<i64, ParseError>(ex.value()),
                Err(e) => spec_evaluate(text@) == Err::<i64, ParseError>(e),
            },
    {
        let input = crate::chars_of(text);
        match p_expr(&input, 0) {
            Ok((v, p)) => {
                if p == input.len() {
                    Ok(Expr(v))
                } else {
                    Err(ParseError::IncompleteParse)
                }
            },
            Err(e) => Err(e),
        }
    }

    /// Returns the folded value.
    pub fn eval(self) -> (r: i64)
        ensures
            r == self.value(),
    {
        self.0
    }
}

impl core::str::FromStr for Expr {
    type Err = ParseError;

    fn from_str(s: &str) -> Result<Expr, ParseError> {
        Expr::from_text(s)
    }
}

/// The decimal digit character for a value `d` between 0 and 9.
pub open spec fn digit_char(d: int) -> char {
    ((d + 48) as u32) as char
}

/// The decimal digits of a non-negative `n`, most significant first.
pub open spec fn spec_digits(n: int) -> Seq<char>
    decreases n,
{
    if n <= 9 {
        seq![digit_char(n)]
    } else {
        spec_digits(n / 10) + seq![digit_char(n % 10)]
    }
}

/// The canonical decimal rendering of `n`: its digits, with a leading `-`
/// for a negative value.
pub open spec fn spec_decimal_of(n: i64) -> Seq<char> {
    if n >= 0 {
        spec_digits(n as int)
    } else {
        seq!['-'] + spec_digits(-(n as int))
    }
}

/// Ten to the power `k` (1 for `k <= 0`).
pub open spec fn pow10(k: int) -> int
    decreases k,
{
    if k <= 0 {
        1
    } else {
        10 * pow10(k - 1)
    }
}

proof fn lemma_pow10_pos(k: int)
    ensures
        pow10(k) >= 1,
    decreases k,
{
    if k > 0 {
        lemma_pow10_pos(k - 1);
    }
}

proof fn lemma_digit_char(d: int)
    requires
        0 <= d <= 9,
    ensures
        is_digit_char(digit_char(d)),
        digit_val(digit_char(d)) == d,
{
}

proof fn lemma_digits_first(n: int)
    requires
        0 <= n,
    ensures
        spec_digits(n).len() >= 1,
        is_digit_char(spec_digits(n)[0]),
    decreases n,
{
    if n <= 9 {
        lemma_digit_char(n);
    } else {
        lemma_digits_first(n / 10);
        assert(spec_digits(n)[0] == spec_digits(n / 10)[0]);
    }
}

/// Stepping lemma: where the digits of `m` stand at `pos`, the number loop
/// walks over all of them, folding them onto `acc`, provided the combined
/// value stays representable.
proof fn lemma_number_loop_steps(s: Seq<char>, pos: int, acc: i64, m: int)
    requires
        0 <= m,
        0 <= acc,
        0 <= pos,
        pos + spec_digits(m).len() <= s.len(),
        s.subrange(pos, pos + spec_digits(m).len()) == spec_digits(m),
        acc * pow10(spec_digits(m).len() as int) + m <= i64::MAX,
    ensures
        spec_number_loop(s, pos, acc) == spec_number_loop(
            s,
            pos + spec_digits(m).len(),
            (acc * pow10(spec_digits(m).len() as int) + m) as i64,
        ),
    decreases m,
{
    let ds = spec_digits(m);
    let len = ds.len() as int;
    lemma_pow10_pos(len);
    if m <= 9 {
        lemma_digit_char(m);
        assert(s[pos] == ds[0]);
        assert(pow10(0) == 1);
        assert(pow10(1) == 10);
        assert(acc * 10 + m <= i64::MAX);
        assert(spec_number_loop(s, pos, acc) == spec_number_loop(s, pos + 1, (acc * 10 + m) as i64));
    } else {
        let m1 = m / 10;
        let d = m % 10;
        let ds1 = spec_digits(m1);
        let len1 = ds1.len() as int;
        lemma_pow10_pos(len1);
        assert(ds == ds1 + seq![digit_char(d)]);
        assert(len == len1 + 1);
        assert(s.subrange(pos, pos + len1) =~= ds1) by {
            assert forall|i: int| 0 <= i < len1 implies s.subrange(pos, pos + len1)[i] == ds1[i] by {
                assert(s.subrange(pos, pos + len)[i] == ds[i]);
            }
        }
        let x = acc * pow10(len1) + m1;
        assert(m == 10 * m1 + d);
        assert(pow10(len) == 10 * pow10(len1));
        assert(acc * pow10(len) == (acc * pow10(len1)) * 10) by (nonlinear_arith)
            requires
                pow10(len) == 10 * pow10(len1),
        ;
        assert(x * 10 + d == acc * pow10(len) + m);
        assert(0 <= x);
        assert(x <= x * 10);
        assert(x * 10 + d <= i64::MAX);
        lemma_number_loop_steps(s, pos, acc, m1);
        assert(s[pos + len1] == ds[len1]);
        assert(ds[len1] == digit_char(d));
        lemma_digit_char(d);
        assert(spec_number_loop(s, pos + len1, x as i64) == spec_number_loop(
            s,
            pos + len,
            (x * 10 + d) as i64,
        ));
    }
}

proof fn lemma_pow_identity(v: i64)
    ensures
        spec_pow(v, 1) == Ok::<i64, ParseError>(v),
{
    assert(spec_pow_rec(v, 0) == Ok::<i64, ParseError>(1));
    assert(spec_pow_rec(v, 1) == Ok::<i64, ParseError>(v));
}

/// Where a `power` alone spans the whole rest of the input, the `factor`,
/// `term` and `expr` built over it give the same value and consume the
/// whole input too.
proof fn lemma_expr_of_full_power(s: Seq<char>, pos: int, v: i64)
    requires
        0 <= pos < s.len(),
        spec_power(s, pos) == Ok::<(i64, int), ParseError>((v, s.len() as int)),
    ensures
        spec_expr(s, pos) == Ok::<(i64, int), ParseError>((v, s.len() as int)),
{
    let len = s.len() as int;
    assert(spec_factor_tail(s, len) == Ok::<(i64, int), ParseError>((1, len)));
    lemma_pow_identity(v);
    assert(spec_factor(s, pos) == Ok::<(i64, int), ParseError>((v, len)));
    assert(spec_term_tail(s, len, v) == Ok::<(i64, int), ParseError>((v, len)));
    assert(spec_term(s, pos) == Ok::<(i64, int), ParseError>((v, len)));
    assert(spec_expr_tail(s, len, v) == Ok::<(i64, int), ParseError>((v, len)));
    assert(spec_expr(s, pos) == Ok::<(i64, int), ParseError>((v, len)));
}

/// Top-level success requires the whole input: an evaluation that returns a
/// value is one whose `expr` parse consumed every character, and a
/// successful partial parse surfaces as an incomplete-parse error instead.
pub proof fn lemma_evaluate_requires_full_consumption(s: Seq<char>)
    ensures
        spec_evaluate(s) matches Ok(v) ==> spec_expr(s, 0) == Ok::<(i64, int), ParseError>(
            (v, s.len() as int),
        ),
        (spec_expr(s, 0) matches Ok((v, p)) && p != s.len()) ==> spec_evaluate(s) == Err::<
            i64,
            ParseError,
        >(ParseError::IncompleteParse),
{
}

/// Round trip: the canonical decimal rendering of any representable value
/// other than `i64::MIN` evaluates back to exactly that value.
/// (`i64::MIN` itself is excluded: its rendering carries a digit string of
/// magnitude `i64::MAX + 1`, which is a domain error before the leading
/// minus applies.)
pub proof fn lemma_evaluate_decimal_round_trip(n: i64)
    requires
        n != i64::MIN,
    ensures
        spec_evaluate(spec_decimal_of(n)) == Ok::<i64, ParseError>(n),
{
    if n >= 0 {
        let s = spec_digits(n as int);
        let len = s.len() as int;
        lemma_digits_first(n as int);
        assert(s.subrange(0, len) =~= s);
        lemma_pow10_pos(len);
        lemma_number_loop_steps(s, 0, 0, n as int);
        assert(spec_number_loop(s, len, n) == Ok::<(i64, int), ParseError>((n, len)));
        assert(spec_power(s, 0) == Ok::<(i64, int), ParseError>((n, len)));
        lemma_expr_of_full_power(s, 0, n);
    } else {
        let m = -(n as int);
        let ds = spec_digits(m);
        let s = seq!['-'] + ds;
        let len = s.len() as int;
        lemma_digits_first(m);
        assert(s.subrange(1, 1 + ds.len() as int) =~= ds);
        lemma_pow10_pos(ds.len() as int);
        lemma_number_loop_steps(s, 1, 0, m);
        assert(spec_number_loop(s, 1, 0) == spec_number_loop(s, len, m as i64));
        assert(spec_number_loop(s, len, m as i64) == Ok::<(i64, int), ParseError>((m as i64, len)));
        assert(s[1] == ds[0]);
        assert(spec_power(s, 1) == Ok::<(i64, int), ParseError>((m as i64, len)));
        assert(spec_factor_tail(s, len) == Ok::<(i64, int), ParseError>((1, len)));
        lemma_pow_identity(m as i64);
        assert(spec_factor(s, 1) == Ok::<(i64, int), ParseError>((m as i64, len)));
        assert(!is_digit_char('-'));
        assert(spec_power(s, 0) == Ok::<(i64, int), ParseError>((n, len)));
        lemma_expr_of_full_power(s, 0, n);
    }
}

} // verus!
