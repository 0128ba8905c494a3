//! Packaged parser values.
//!
//! [`Parser`] wraps any strategy of the engine (see [`crate::parsec`])
//! behind one reusable, immutable value.  The free functions here build the
//! classic combinator vocabulary: primitives (`any_character`, `character`,
//! `digit`, `whitespace`), filtering (`satisfies`), composition (`sequence`,
//! `either`, `left`, `right`, `map`), repetition (`many`, `many1`,
//! `whitespaces`, `whitespaces1`) and deferred construction (`lazy`), which
//! breaks construction-time cycles in recursive grammars while keeping
//! ordinary recursion at parse time.
//!
//! Where the classic interface takes a bare closure (a map function, a
//! predicate, a generator thunk), these combinators take a value of a small
//! trait ([`Transform`], [`Predicate`], [`Generator`]) carrying a model of
//! the closure, so that every built parser keeps an exact specification.

use vstd::prelude::*;

use crate::parsec::ManyP;
use crate::parsec::MapP;
use crate::parsec::ParseError;
use crate::parsec::Parser as Strategy;
use crate::parsec::SeqP;
use crate::parsec::Transform;
use crate::parsec::is_digit_char;
use crate::parsec::many_items;
use crate::parsec::run_many;

verus! {

/// The outcome of a binary alternative: which branch matched, with its value.
#[derive(Debug)]
pub enum Either<L, R> {
    Left(L),
    Right(R),
}

impl<L: DeepView, R: DeepView> DeepView for Either<L, R> {
    type V = Either<L::V, R::V>;

    open spec fn deep_view(&self) -> Self::V {
        match self {
            Either::Left(l) => Either::Left(l.deep_view()),
            Either::Right(r) => Either::Right(r.deep_view()),
        }
    }
}

/// An opaque, immutable, reusable parser value wrapping a strategy.
pub struct Parser<P> {
    pub strategy: P,
}

impl<P> Parser<P> {
    /// Packages a strategy as a parser value.
    pub fn new(parse_fn: P) -> (r: Parser<P>)
        ensures
            r.strategy == parse_fn,
    {
        Parser { strategy: parse_fn }
    }

    /// Runs the parser on `input` starting at `pos`; agrees with the
    /// strategy's model `spec_run`.
    pub fn parse<T: DeepView>(&self, input: &Vec<char>, pos: usize) -> (r: Result<
        (T, usize),
        ParseError,
    >) where P: Strategy<T>
        requires
            pos <= input@.len(),
        ensures
            match r {
                Ok((v, p2)) => pos <= p2 <= input@.len() && self.strategy.spec_run(
                    input@,
                    pos as int,
                ) == Ok::<(T::V, int), ParseError>((v.deep_view(), p2 as int)),
                Err(e) => self.strategy.spec_run(input@, pos as int) == Err::<
                    (T::V, int),
                    ParseError,
                >(e),
            },
    {
        self.strategy.run(input, pos)
    }

    /// Applies a transformation to this parser's result.
    pub fn map<T: DeepView, U: DeepView, F: Transform<T, U>>(self, map_fn: F) -> (r: Parser<
        MapP<T, P, F>,
    >) where P: Strategy<T>
        ensures
            r.strategy.parser == self.strategy,
            r.strategy.map_fn == map_fn,
    {
        Parser { strategy: MapP { parser: self.strategy, map_fn, marker: core::marker::PhantomData } }
    }
}

/// A boolean test with a model, standing in for a bare predicate closure.
pub trait Predicate<T: DeepView> {
    /// The model of the test, over deep views.
    spec fn spec_test(&self, v: T::V) -> bool;

    /// Applies the test; agrees with `spec_test`.
    fn test(&self, v: &T) -> (b: bool)
        ensures
            b == self.spec_test(v.deep_view()),
    ;
}

/// Filters a strategy's result: fails, consuming nothing, when the
/// predicate rejects the parsed value.
pub struct SatP<P, F> {
    pub parser: P,
    pub predicate: F,
}

impl<T: DeepView, P: Strategy<T>, F: Predicate<T>> Strategy<T> for SatP<
    P,
    F,
> {
    open spec fn spec_run(&self, s: Seq<char>, pos: int) -> Result<(T::V, int), ParseError> {
        match self.parser.spec_run(s, pos) {
            Ok((v, p2)) => if self.predicate.spec_test(v) {
                Ok((v, p2))
            } else {
                Err(ParseError::UnexpectedCharacter)
            },
            Err(e) => Err(e),
        }
    }

    fn run(&self, input: &Vec<char>, pos: usize) -> (r: Result<(T, usize), ParseError>) {
        match self.parser.run(input, pos) {
            Ok((v, p2)) => if self.predicate.test(&v) {
                Ok((v, p2))
            } else {
                Err(ParseError::UnexpectedCharacter)
            },
            Err(e) => Err(e),
        }
    }
}

/// A rejected value fails the filtered parser without consuming anything:
/// where the underlying parser succeeds but the predicate rejects its
/// value, the filtered parser reports an unexpected character and no
/// offset, leaving the input where it was before the attempt.
pub proof fn lemma_satisfies_rejects_without_consuming<T: DeepView, P: Strategy<T>, F: Predicate<
    T,
>>(p: SatP<P, F>, s: Seq<char>, pos: int)
    ensures
        (p.parser.spec_run(s, pos) matches Ok((v, p2)) && !p.predicate.spec_test(v))
            ==> p.spec_run(s, pos) == Err::<(T::V, int), ParseError>(
            ParseError::UnexpectedCharacter,
        ),
{
}

/// Filters an existing parser's result through a predicate.
pub fn satisfies<T: DeepView, P: Strategy<T>, F: Predicate<T>>(
    parser: Parser<P>,
    predicate: F,
) -> (r: Parser<SatP<P, F>>)
    ensures
        r.strategy.parser == parser.strategy,
        r.strategy.predicate == predicate,
{
    Parser { strategy: SatP { parser: parser.strategy, predicate } }
}

/// Consumes any single character; fails only at end of input.
#[derive(Clone, Copy)]
pub struct AnyCharP;

impl Strategy<char> for AnyCharP {
    open spec fn spec_run(&self, s: Seq<char>, pos: int) -> Result<(char, int), ParseError> {
        if pos >= s.len() {
            Err(ParseError::UnexpectedEndOfInput)
        } else {
            Ok((s[pos], pos + 1))
        }
    }

    fn run(&self, input: &Vec<char>, pos: usize) -> (r: Result<(char, usize), ParseError>) {
        if pos >= input.len() {
            Err(ParseError::UnexpectedEndOfInput)
        } else {
            Ok((input[pos], pos + 1))
        }
    }
}

/// The parser that consumes any single character.
pub fn any_character() -> (r: Parser<AnyCharP>)
    ensures
        r.strategy == (AnyCharP {}),
{
    Parser { strategy: AnyCharP {} }
}

/// Runs two parsers in order, yielding the pair of their values.
pub fn sequence<T: DeepView, U: DeepView, P1: Strategy<T>, P2: Strategy<
    U,
>>(parser1: Parser<P1>, parser2: Parser<P2>) -> (r: Parser<SeqP<P1, P2>>)
    ensures
        r.strategy.first == parser1.strategy,
        r.strategy.second == parser2.strategy,
{
    Parser { strategy: SeqP { first: parser1.strategy, second: parser2.strategy } }
}

/// Keeps the left value of a sequenced pair.
pub struct ProjLeft;

impl<T: DeepView, U: DeepView> Transform<(T, U), T> for ProjLeft {
    open spec fn spec_apply(&self, v: (T::V, U::V)) -> T::V {
        v.0
    }

    fn apply(&self, v: (T, U)) -> (r: T) {
        v.0
    }
}

/// Keeps the right value of a sequenced pair.
pub struct ProjRight;

impl<T: DeepView, U: DeepView> Transform<(T, U), U> for ProjRight {
    open spec fn spec_apply(&self, v: (T::V, U::V)) -> U::V {
        v.1
    }

    fn apply(&self, v: (T, U)) -> (r: U) {
        v.1
    }
}

/// Runs two parsers in order and keeps only the first value.
pub fn left<T: DeepView, U: DeepView, P1: Strategy<T>, P2: Strategy<U>>(
    parser1: Parser<P1>,
    parser2: Parser<P2>,
) -> (r: Parser<MapP<(T, U), SeqP<P1, P2>, ProjLeft>>)
    ensures
        r.strategy.parser.first == parser1.strategy,
        r.strategy.parser.second == parser2.strategy,
{
    sequence(parser1, parser2).map(ProjLeft {})
}

/// Runs two parsers in order and keeps only the second value.
pub fn right<T: DeepView, U: DeepView, P1: Strategy<T>, P2: Strategy<U>>(
    parser1: Parser<P1>,
    parser2: Parser<P2>,
) -> (r: Parser<MapP<(T, U), SeqP<P1, P2>, ProjRight>>)
    ensures
        r.strategy.parser.first == parser1.strategy,
        r.strategy.parser.second == parser2.strategy,
{
    sequence(parser1, parser2).map(ProjRight {})
}

/// Ordered alternation yielding a tagged [`Either`]: tries `first`; on
/// failure tries `second` from the original offset.
pub struct EitherP<P1, P2> {
    pub first: P1,
    pub second: P2,
}

impl<T: DeepView, U: DeepView, P1: Strategy<T>, P2: Strategy<
    U,
>> Strategy<Either<T, U>> for EitherP<P1, P2> {
    open spec fn spec_run(&self, s: Seq<char>, pos: int) -> Result<
        (Either<T::V, U::V>, int),
        ParseError,
    > {
        match self.first.spec_run(s, pos) {
            Ok((v, p2)) => Ok((Either::Left(v), p2)),
            Err(_) => match self.second.spec_run(s, pos) {
                Ok((v, p2)) => Ok((Either::Right(v), p2)),
                Err(e) => Err(e),
            },
        }
    }

    fn run(&self, input: &Vec<char>, pos: usize) -> (r: Result<
        (Either<T, U>, usize),
        ParseError,
    >) {
        match self.first.run(input, pos) {
            Ok((v, p2)) => Ok((Either::Left(v), p2)),
            Err(_) => match self.second.run(input, pos) {
                Ok((v, p2)) => Ok((Either::Right(v), p2)),
                Err(e) => Err(e),
            },
        }
    }
}

/// Tries `parser1`; on failure retries `parser2` against the original
/// input, tagging which branch matched.
pub fn either<T: DeepView, U: DeepView, P1: Strategy<T>, P2: Strategy<
    U,
>>(parser1: Parser<P1>, parser2: Parser<P2>) -> (r: Parser<EitherP<P1, P2>>)
    ensures
        r.strategy.first == parser1.strategy,
        r.strategy.second == parser2.strategy,
{
    Parser { strategy: EitherP { first: parser1.strategy, second: parser2.strategy } }
}

/// Backtracking: a failing first branch leaves the input exactly where it
/// was, so the second branch of an alternation runs from the original
/// offset, and an alternation that fails overall reports the second
/// branch's error.
pub proof fn lemma_either_backtracks<T: DeepView, U: DeepView, P1: Strategy<T>, P2: Strategy<U>>(
    c: EitherP<P1, P2>,
    s: Seq<char>,
    pos: int,
)
    requires
        c.first.spec_run(s, pos) is Err,
    ensures
        c.spec_run(s, pos) == (match c.second.spec_run(s, pos) {
            Ok((v, p2)) => Ok::<(Either<T::V, U::V>, int), ParseError>((Either::Right(v), p2)),
            Err(e) => Err::<(Either<T::V, U::V>, int), ParseError>(e),
        }),
{
}

/// Zero-or-more greedy repetition; never fails.
pub fn many<T: DeepView, P: Strategy<T>>(parser: Parser<P>) -> (r: Parser<ManyP<P>>)
    ensures
        r.strategy.parser == parser.strategy,
{
    Parser { strategy: ManyP { parser: parser.strategy } }
}

/// One-or-more greedy repetition: fails exactly when zero elements match,
/// and then with the element parser's own error, consuming nothing.
pub struct Many1P<P> {
    pub parser: P,
}

impl<T: DeepView, P: Strategy<T>> Strategy<Vec<T>> for Many1P<P> {
    open spec fn spec_run(&self, s: Seq<char>, pos: int) -> Result<(Seq<T::V>, int), ParseError> {
        match self.parser.spec_run(s, pos) {
            Err(e) => Err(e),
            Ok(_) => Ok(many_items(self.parser, s, pos)),
        }
    }

    fn run(&self, input: &Vec<char>, pos: usize) -> (r: Result<(Vec<T>, usize), ParseError>) {
        match self.parser.run(input, pos) {
            Err(e) => Err(e),
            Ok(_) => {
                let (vs, p2) = run_many(&self.parser, input, pos);
                Ok((vs, p2))
            },
        }
    }
}

/// One-or-more greedy repetition of a parser.
pub fn many1<T: DeepView, P: Strategy<T>>(parser: Parser<P>) -> (r: Parser<Many1P<P>>)
    ensures
        r.strategy.parser == parser.strategy,
{
    Parser { strategy: Many1P { parser: parser.strategy } }
}

/// `many1` fails exactly when its element parser matches zero elements, and
/// then with that parser's own error; a success always holds at least one
/// element.
pub proof fn lemma_many1_fails_iff_none<T: DeepView, P: Strategy<T>>(
    m: Many1P<P>,
    s: Seq<char>,
    pos: int,
)
    ensures
        m.spec_run(s, pos) is Err <==> m.parser.spec_run(s, pos) is Err,
        m.spec_run(s, pos) matches Err(e) ==> m.parser.spec_run(s, pos) == Err::<
            (T::V, int),
            ParseError,
        >(e),
        m.spec_run(s, pos) matches Ok((l, p)) ==> l.len() >= 1,
{
    if m.parser.spec_run(s, pos) is Ok {
        assert(many_items(m.parser, s, pos).0.len() >= 1);
    }
}

/// A deferred parser construction with a model: the generator builds the
/// underlying strategy only when parsing is attempted, which breaks
/// construction-time cycles in recursive grammars while leaving parse-time
/// recursion to the call stack.
pub trait Generator<T: DeepView> {
    /// The strategy this generator builds.
    type Strategy: Strategy<T>;

    /// The model of the built strategy.
    spec fn spec_generate(&self) -> Self::Strategy;

    /// Builds the strategy; agrees with `spec_generate`.
    fn generate(&self) -> (p: Self::Strategy)
        ensures
            p == self.spec_generate(),
    ;
}

/// The simplest generator: returns one already-built strategy.  It makes a
/// plain parser usable wherever a deferred one is expected; a recursive
/// grammar supplies its own generator, whose `generate` rebuilds the rule's
/// parser on each attempt.
pub struct Ready<P> {
    pub parser: P,
}

impl<T: DeepView, P: Strategy<T> + Copy> Generator<T> for Ready<P> {
    type Strategy = P;

    open spec fn spec_generate(&self) -> P {
        self.parser
    }

    fn generate(&self) -> (p: P) {
        self.parser
    }
}

/// Defers construction of the wrapped parser to parse time.
pub struct LazyP<G> {
    pub generator: G,
}

impl<T: DeepView, G: Generator<T>> Strategy<T> for LazyP<G> {
    open spec fn spec_run(&self, s: Seq<char>, pos: int) -> Result<(T::V, int), ParseError> {
        self.generator.spec_generate().spec_run(s, pos)
    }

    fn run(&self, input: &Vec<char>, pos: usize) -> (r: Result<(T, usize), ParseError>) {
        let p = self.generator.generate();
        p.run(input, pos)
    }
}

/// Wraps a generator so that the underlying parser is constructed only when
/// parsing is attempted.
pub fn lazy<T: DeepView, G: Generator<T>>(parser_generator: G) -> (r: Parser<LazyP<G>>)
    ensures
        r.strategy.generator == parser_generator,
{
    Parser { strategy: LazyP { generator: parser_generator } }
}

/// Accepts exactly one given character.
pub struct CharEq {
    pub expected: char,
}

impl Predicate<char> for CharEq {
    open spec fn spec_test(&self, v: char) -> bool {
        v == self.expected
    }

    fn test(&self, v: &char) -> (b: bool) {
        *v == self.expected
    }
}

/// Accepts any ASCII decimal digit.
pub struct IsDigit;

impl Predicate<char> for IsDigit {
    open spec fn spec_test(&self, v: char) -> bool {
        is_digit_char(v)
    }

    fn test(&self, v: &char) -> (b: bool) {
        let u = *v as u32;
        48 <= u && u <= 57
    }
}

/// Accepts the space character.
pub struct IsSpace;

impl Predicate<char> for IsSpace {
    open spec fn spec_test(&self, v: char) -> bool {
        v == ' '
    }

    fn test(&self, v: &char) -> (b: bool) {
        *v == ' '
    }
}

/// Matches exactly `search_char`.
pub fn character(search_char: char) -> (r: Parser<SatP<AnyCharP, CharEq>>)
    ensures
        r.strategy.predicate.expected == search_char,
{
    satisfies(any_character(), CharEq { expected: search_char })
}

/// Matches one ASCII decimal digit.
pub fn digit() -> (r: Parser<SatP<AnyCharP, IsDigit>>)
    ensures
        r.strategy.predicate == (IsDigit {}),
{
    satisfies(any_character(), IsDigit {})
}

/// Matches one space character.
pub fn whitespace() -> (r: Parser<SatP<AnyCharP, IsSpace>>)
    ensures
        r.strategy.predicate == (IsSpace {}),
{
    satisfies(any_character(), IsSpace {})
}

/// Matches zero or more space characters.
pub fn whitespaces() -> (r: Parser<ManyP<SatP<AnyCharP, IsSpace>>>)
    ensures
        r.strategy.parser.predicate == (IsSpace {}),
{
    many(whitespace())
}

/// Matches one or more space characters.
pub fn whitespaces1() -> (r: Parser<Many1P<SatP<AnyCharP, IsSpace>>>)
    ensures
        r.strategy.parser.predicate == (IsSpace {}),
{
    many1(whitespace())
}

} // verus!
