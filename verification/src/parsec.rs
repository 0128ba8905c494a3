//! The combinator engine.
//!
//! A parser is a value implementing [`Parser`]: a strategy that, applied to a
//! character sequence and a start offset, either succeeds with a parsed value
//! and the offset of the unconsumed remainder, or fails with a [`ParseError`]
//! and consumes nothing.  Every strategy carries a mathematical model
//! (`spec_run`), and the executable `run` is proved to agree with it, so two
//! runs on the same input always give the same outcome.

use vstd::prelude::*;

verus! {

/// How a parse attempt can fail.
#[derive(Clone, Copy, Debug, PartialEq, Eq, Structural)]
pub enum ParseError {
    /// A character parser did not match at the current offset.
    UnexpectedCharacter,
    /// A parser required at least one more character than were available.
    UnexpectedEndOfInput,
    /// The grammar matched a prefix but trailing characters remain.
    IncompleteParse,
    /// Division by zero, a negative exponent, or a result outside the
    /// representable range.
    DomainError,
}

/// The outcome of a binary alternative: which branch matched, with its value.
#[derive(Debug)]
pub enum Either<L, R> {
    Left(L),
    Right(R),
}

impl<L: DeepView, R: DeepView> DeepView for Either<L, R> {
    type V = Either<L::V, R::V>;

    open spec fn deep_view(&self) -> Self::V {
        match self {
            Either::Left(l) => Either::Left(l.deep_view()),
            Either::Right(r) => Either::Right(r.deep_view()),
        }
    }
}

/// A parsing strategy producing values of type `T`.
///
/// `spec_run` is the strategy's model: a function from the input sequence and
/// a start offset to the outcome.  On success it gives the parsed value (as
/// its deep view) and the offset of the first unconsumed character; on
/// failure only an error, so a failing run leaves the remaining input exactly
/// where it was before the attempt.
pub trait Parser<T: DeepView> {
    /// The mathematical model of this strategy.
    spec fn spec_run(&self, s: Seq<char>, pos: int) -> Result<(T::V, int), ParseError>;

    /// Runs the strategy on `input` starting at `pos`; agrees with `spec_run`.
    fn run(&self, input: &Vec<char>, pos: usize) -> (r: Result<(T, usize), ParseError>)
        requires
            pos <= input@.len(),
        ensures
            match r {
                Ok((v, p2)) => pos <= p2 <= input@.len() && self.spec_run(input@, pos as int)
                    == Ok::<(T::V, int), ParseError>((v.deep_view(), p2 as int)),
                Err(e) => self.spec_run(input@, pos as int) == Err::<(T::V, int), ParseError>(e),
            },
    ;
}

/// Matches exactly the character `expected`.
pub struct CharP {
    pub expected: char,
}

impl Parser<char> for CharP {
    open spec fn spec_run(&self, s: Seq<char>, pos: int) -> Result<(char, int), ParseError> {
        if pos >= s.len() {
            Err(ParseError::UnexpectedEndOfInput)
        } else if s[pos] == self.expected {
            Ok((self.expected, pos + 1))
        } else {
            Err(ParseError::UnexpectedCharacter)
        }
    }

    fn run(&self, input: &Vec<char>, pos: usize) -> (r: Result<(char, usize), ParseError>) {
        if pos >= input.len() {
            Err(ParseError::UnexpectedEndOfInput)
        } else if input[pos] == self.expected {
            Ok((self.expected, pos + 1))
        } else {
            Err(ParseError::UnexpectedCharacter)
        }
    }
}

/// Builds the parser for one literal character.
pub fn p_char(search_char: char) -> (p: CharP)
    ensures
        p.expected == search_char,
{
    CharP { expected: search_char }
}

/// Ordered alternation: tries `first`; on failure tries `second` from the
/// very same offset, so a failed first branch consumes nothing.
pub struct ChoiceP<P1, P2> {
    pub first: P1,
    pub second: P2,
}

impl<T: DeepView, U: DeepView, P1: Parser<T>, P2: Parser<U>> Parser<Either<T, U>> for ChoiceP<
    P1,
    P2,
> {
    open spec fn spec_run(&self, s: Seq<char>, pos: int) -> Result<
        (Either<T::V, U::V>, int),
        ParseError,
    > {
        match self.first.spec_run(s, pos) {
            Ok((v, p2)) => Ok((Either::Left(v), p2)),
            Err(_) => match self.second.spec_run(s, pos) {
                Ok((v, p2)) => Ok((Either::Right(v), p2)),
                Err(e) => Err(e),
            },
        }
    }

    fn run(&self, input: &Vec<char>, pos: usize) -> (r: Result<
        (Either<T, U>, usize),
        ParseError,
    >) {
        match self.first.run(input, pos) {
            Ok((v, p2)) => Ok((Either::Left(v), p2)),
            Err(_) => match self.second.run(input, pos) {
                Ok((v, p2)) => Ok((Either::Right(v), p2)),
                Err(e) => Err(e),
            },
        }
    }
}

/// Builds the ordered alternation of two parsers.
pub fn choice<T: DeepView, U: DeepView, P1: Parser<T>, P2: Parser<U>>(p1: P1, p2: P2) -> (p:
    ChoiceP<P1, P2>)
    ensures
        p.first == p1,
        p.second == p2,
{
    ChoiceP { first: p1, second: p2 }
}

/// Runs `first`, then `second` on the remainder; fails if either fails.
pub struct SeqP<P1, P2> {
    pub first: P1,
    pub second: P2,
}

impl<T: DeepView, U: DeepView, P1: Parser<T>, P2: Parser<U>> Parser<(T, U)> for SeqP<P1, P2> {
    open spec fn spec_run(&self, s: Seq<char>, pos: int) -> Result<
        ((T::V, U::V), int),
        ParseError,
    > {
        match self.first.spec_run(s, pos) {
            Ok((v1, p1)) => match self.second.spec_run(s, p1) {
                Ok((v2, p2)) => Ok(((v1, v2), p2)),
                Err(e) => Err(e),
            },
            Err(e) => Err(e),
        }
    }

    fn run(&self, input: &Vec<char>, pos: usize) -> (r: Result<((T, U), usize), ParseError>) {
        match self.first.run(input, pos) {
            Ok((v1, p1)) => match self.second.run(input, p1) {
                Ok((v2, p2)) => Ok(((v1, v2), p2)),
                Err(e) => Err(e),
            },
            Err(e) => Err(e),
        }
    }
}

/// Builds the ordered pair of two parsers.
pub fn seq<T: DeepView, U: DeepView, P1: Parser<T>, P2: Parser<U>>(p1: P1, p2: P2) -> (p: SeqP<
    P1,
    P2,
>)
    ensures
        p.first == p1,
        p.second == p2,
{
    SeqP { first: p1, second: p2 }
}

/// A value transformation with a model, used by [`MapP`] in place of a bare
/// closure so that the mapped parser keeps an exact specification.
pub trait Transform<T: DeepView, U: DeepView> {
    /// The model of the transformation, over deep views.
    spec fn spec_apply(&self, v: T::V) -> U::V;

    /// Applies the transformation; agrees with `spec_apply`.
    fn apply(&self, v: T) -> (r: U)
        ensures
            r.deep_view() == self.spec_apply(v.deep_view()),
    ;
}

/// Applies a transformation to the value of a successful parse.
pub struct MapP<T, P, F> {
    pub parser: P,
    pub map_fn: F,
    pub marker: core::marker::PhantomData<T>,
}

impl<T: DeepView, U: DeepView, P: Parser<T>, F: Transform<T, U>> Parser<U> for MapP<T, P, F> {
    open spec fn spec_run(&self, s: Seq<char>, pos: int) -> Result<(U::V, int), ParseError> {
        match self.parser.spec_run(s, pos) {
            Ok((v, p2)) => Ok((self.map_fn.spec_apply(v), p2)),
            Err(e) => Err(e),
        }
    }

    fn run(&self, input: &Vec<char>, pos: usize) -> (r: Result<(U, usize), ParseError>) {
        match self.parser.run(input, pos) {
            Ok((v, p2)) => Ok((self.map_fn.apply(v), p2)),
            Err(e) => Err(e),
        }
    }
}

/// Builds a parser that applies `map_fn` to `parser`'s result.
pub fn map<T: DeepView, U: DeepView, P: Parser<T>, F: Transform<T, U>>(map_fn: F, parser: P) -> (p:
    MapP<T, P, F>)
    ensures
        p.parser == parser,
        p.map_fn == map_fn,
{
    MapP { parser, map_fn, marker: core::marker::PhantomData }
}

/// The items a greedy repetition of `p` collects from `pos` on, with the
/// offset where it stops.  Repetition never fails: when `p` fails, the run so
/// far is returned and the failing attempt consumes nothing.  A succeeding
/// parser that consumes nothing contributes its value once and the
/// repetition stops, keeping the engine total.
pub open spec fn many_items<T: DeepView, P: Parser<T>>(p: P, s: Seq<char>, pos: int) -> (Seq<
    T::V,
>, int)
    decreases s.len() - pos,
{
    match p.spec_run(s, pos) {
        Err(_) => (Seq::empty(), pos),
        Ok((v, p2)) => if pos < p2 <= s.len() {
            let (rest, p3) = many_items(p, s, p2);
            (seq![v] + rest, p3)
        } else {
            (seq![v], p2)
        },
    }
}

/// Greedy repetition, zero or more: never fails.
pub struct ManyP<P> {
    pub parser: P,
}

impl<T: DeepView, P: Parser<T>> Parser<Vec<T>> for ManyP<P> {
    open spec fn spec_run(&self, s: Seq<char>, pos: int) -> Result<(Seq<T::V>, int), ParseError> {
        Ok(many_items(self.parser, s, pos))
    }

    fn run(&self, input: &Vec<char>, pos: usize) -> (r: Result<(Vec<T>, usize), ParseError>) {
        let (vs, p2) = run_many(&self.parser, input, pos);
        Ok((vs, p2))
    }
}

/// Builds the zero-or-more repetition of a parser.
pub fn many<T: DeepView, P: Parser<T>>(parser: P) -> (p: ManyP<P>)
    ensures
        p.parser == parser,
{
    ManyP { parser }
}

/// Collects the greedy repetition of `p`; the executable side of
/// [`many_items`].
pub fn run_many<T: DeepView, P: Parser<T>>(p: &P, input: &Vec<char>, pos: usize) -> (r: (
    Vec<T>,
    usize,
))
    requires
        pos <= input@.len(),
    ensures
        pos <= r.1 <= input@.len(),
        many_items(*p, input@, pos as int) == (r.0.deep_view(), r.1 as int),
    decreases input@.len() - pos,
{
    match p.run(input, pos) {
        Err(_) => {
            let vs: Vec<T> = Vec::new();
            proof {
                assert(vs.deep_view() =~= many_items(*p, input@, pos as int).0);
            }
            (vs, pos)
        },
        Ok((v, p2)) => {
            if p2 > pos {
                let (mut rest, p3) = run_many(p, input, p2);
                let ghost rest0 = rest.deep_view();
                rest.insert(0, v);
                proof {
                    assert(rest.deep_view() =~= seq![v.deep_view()] + rest0);
                }
                (rest, p3)
            } else {
                let mut one: Vec<T> = Vec::new();
                one.push(v);
                proof {
                    assert(one.deep_view() =~= seq![v.deep_view()]);
                }
                (one, p2)
            }
        },
    }
}

/// Whether `c` is an ASCII decimal digit.
pub open spec fn is_digit_char(c: char) -> bool {
    48 <= c as u32 <= 57
}

/// The model of [`p_digit`]: one ASCII decimal digit.
pub open spec fn spec_digit(s: Seq<char>, pos: int) -> Result<(char, int), ParseError> {
    if pos >= s.len() {
        Err(ParseError::UnexpectedEndOfInput)
    } else if is_digit_char(s[pos]) {
        Ok((s[pos], pos + 1))
    } else {
        Err(ParseError::UnexpectedCharacter)
    }
}

/// Parses one ASCII decimal digit.
pub fn p_digit(input: &Vec<char>, pos: usize) -> (r: Result<(char, usize), ParseError>)
    requires
        pos <= input@.len(),
    ensures
        match r {
            Ok((v, p2)) => pos <= p2 <= input@.len() && spec_digit(input@, pos as int)
                == Ok::<(char, int), ParseError>((v, p2 as int)),
            Err(e) => spec_digit(input@, pos as int) == Err::<(char, int), ParseError>(e),
        },
{
    if pos >= input.len() {
        Err(ParseError::UnexpectedEndOfInput)
    } else {
        let c = input[pos];
        let u = c as u32;
        if 48 <= u && u <= 57 {
            Ok((c, pos + 1))
        } else {
            Err(ParseError::UnexpectedCharacter)
        }
    }
}

/// The accumulating tail of [`spec_natural`]: consumes digits while they
/// last, building the decimal value; a value past `u32::MAX` is a domain
/// error.
pub open spec fn spec_natural_loop(s: Seq<char>, pos: int, acc: u32) -> Result<
    (u32, int),
    ParseError,
>
    decreases s.len() - pos,
{
    if pos < s.len() && is_digit_char(s[pos]) {
        let d = (s[pos] as u32 - 48) as u32;
        match acc.checked_mul(10) {
            Some(m) => match m.checked_add(d) {
                Some(v) => spec_natural_loop(s, pos + 1, v),
                None => Err(ParseError::DomainError),
            },
            None => Err(ParseError::DomainError),
        }
    } else {
        Ok((acc, pos))
    }
}

/// A successful digit run never moves backward: it ends at or after where
/// it started, and strictly after when a digit stands at the start.
pub proof fn lemma_natural_loop_advances(s: Seq<char>, pos: int, acc: u32)
    ensures
        spec_natural_loop(s, pos, acc) matches Ok((v, p)) ==> p >= pos && (pos < s.len()
            && is_digit_char(s[pos]) ==> p >= pos + 1) && (pos <= s.len() ==> p <= s.len()),
    decreases s.len() - pos,
{
    if pos < s.len() && is_digit_char(s[pos]) {
        let d = (s[pos] as u32 - 48) as u32;
        match acc.checked_mul(10) {
            Some(m) => match m.checked_add(d) {
                Some(v) => lemma_natural_loop_advances(s, pos + 1, v),
                None => {},
            },
            None => {},
        }
    }
}

/// The model of [`p_natural`]: one or more ASCII digits read as a decimal
/// `u32`.
pub open spec fn spec_natural(s: Seq<char>, pos: int) -> Result<(u32, int), ParseError> {
    if pos >= s.len() {
        Err(ParseError::UnexpectedEndOfInput)
    } else if !is_digit_char(s[pos]) {
        Err(ParseError::UnexpectedCharacter)
    } else {
        spec_natural_loop(s, pos, 0)
    }
}

fn natural_loop(input: &Vec<char>, pos: usize, acc: u32) -> (r: Result<(u32, usize), ParseError>)
    requires
        pos <= input@.len(),
    ensures
        match r {
            Ok((v, p2)) => pos <= p2 <= input@.len() && spec_natural_loop(input@, pos as int, acc)
                == Ok::<(u32, int), ParseError>((v, p2 as int)),
            Err(e) => spec_natural_loop(input@, pos as int, acc) == Err::<(u32, int), ParseError>(
                e,
            ),
        },
    decreases input@.len() - pos,
{
    if pos < input.len() {
        let c = input[pos];
        let u = c as u32;
        if 48 <= u && u <= 57 {
            let d = u - 48;
            match acc.checked_mul(10) {
                Some(m) => match m.checked_add(d) {
                    Some(v) => natural_loop(input, pos + 1, v),
                    None => Err(ParseError::DomainError),
                },
                None => Err(ParseError::DomainError),
            }
        } else {
            Ok((acc, pos))
        }
    } else {
        Ok((acc, pos))
    }
}

/// Parses one or more ASCII digits as a decimal `u32`; fails without
/// consuming when no digit starts at `pos`, and with a domain error when the
/// value does not fit.
pub fn p_natural(input: &Vec<char>, pos: usize) -> (r: Result<(u32, usize), ParseError>)
    requires
        pos <= input@.len(),
    ensures
        match r {
            Ok((v, p2)) => pos <= p2 <= input@.len() && spec_natural(input@, pos as int)
                == Ok::<(u32, int), ParseError>((v, p2 as int)),
            Err(e) => spec_natural(input@, pos as int) == Err::<(u32, int), ParseError>(e),
        },
{
    if pos >= input.len() {
        Err(ParseError::UnexpectedEndOfInput)
    } else {
        let c = input[pos];
        let u = c as u32;
        if !(48 <= u && u <= 57) {
            Err(ParseError::UnexpectedCharacter)
        } else {
            natural_loop(input, pos, 0)
        }
    }
}

/// Backtracking: a failing first branch leaves the input exactly where it
/// was, so the second branch of a choice runs from the original offset, and
/// a choice that fails overall reports the second branch's error.
pub proof fn lemma_choice_backtracks<T: DeepView, U: DeepView, P1: Parser<T>, P2: Parser<U>>(
    c: ChoiceP<P1, P2>,
    s: Seq<char>,
    pos: int,
)
    requires
        c.first.spec_run(s, pos) is Err,
    ensures
        c.spec_run(s, pos) == (match c.second.spec_run(s, pos) {
            Ok((v, p2)) => Ok::<(Either<T::V, U::V>, int), ParseError>((Either::Right(v), p2)),
            Err(e) => Err::<(Either<T::V, U::V>, int), ParseError>(e),
        }),
{
}

/// Greedy repetition never fails, whatever its element parser does.
pub proof fn lemma_many_never_fails<T: DeepView, P: Parser<T>>(m: ManyP<P>, s: Seq<char>, pos: int)
    ensures
        m.spec_run(s, pos) is Ok,
{
}

/// A failing element attempt consumes nothing: where the element parser
/// fails at `pos`, the repetition stops there with the empty run and the
/// offset still `pos`.
pub proof fn lemma_many_failure_consumes_nothing<T: DeepView, P: Parser<T>>(
    p: P,
    s: Seq<char>,
    pos: int,
)
    requires
        p.spec_run(s, pos) is Err,
    ensures
        many_items(p, s, pos) == (Seq::<T::V>::empty(), pos),
{
}

} // verus!
