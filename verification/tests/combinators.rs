use mathematician::chars_of;
use mathematician::kombi;
use mathematician::kombi::Either;
use mathematician::kombi::ProjLeft;
use mathematician::kombi::ProjRight;
use mathematician::parsec;
use mathematician::parsec::ParseError;
use mathematician::parsec::Parser;

#[test]
fn character_matches_and_advances() {
    let input = chars_of("hello");
    let p = kombi::character('h');
    assert_eq!(p.parse(&input, 0), Ok(('h', 1)));
}

#[test]
fn character_mismatch_is_unexpected_character() {
    let input = chars_of("hello");
    let p = kombi::character('x');
    assert_eq!(p.parse(&input, 0), Err(ParseError::UnexpectedCharacter));
}

#[test]
fn character_at_end_is_unexpected_end() {
    let input = chars_of("");
    let p = kombi::character('x');
    assert_eq!(p.parse(&input, 0), Err(ParseError::UnexpectedEndOfInput));
}

#[test]
fn any_character_takes_whatever_comes() {
    let input = chars_of("zq");
    let p = kombi::any_character();
    assert_eq!(p.parse(&input, 0), Ok(('z', 1)));
    assert_eq!(p.parse(&input, 1), Ok(('q', 2)));
}

#[test]
fn digit_accepts_digits_only() {
    let input = chars_of("5x");
    assert_eq!(kombi::digit().parse(&input, 0), Ok(('5', 1)));
    assert_eq!(
        kombi::digit().parse(&input, 1),
        Err(ParseError::UnexpectedCharacter)
    );
}

#[test]
fn satisfies_filters_without_consuming() {
    let input = chars_of("a1");
    let p = kombi::satisfies(kombi::any_character(), kombi::IsDigit);
    assert_eq!(p.parse(&input, 0), Err(ParseError::UnexpectedCharacter));
    assert_eq!(p.parse(&input, 1), Ok(('1', 2)));
}

#[test]
fn sequence_yields_the_pair() {
    let input = chars_of("ab");
    let p = kombi::sequence(kombi::character('a'), kombi::character('b'));
    assert_eq!(p.parse(&input, 0), Ok((('a', 'b'), 2)));
}

#[test]
fn sequence_fails_if_either_side_fails() {
    let input = chars_of("ax");
    let p = kombi::sequence(kombi::character('a'), kombi::character('b'));
    assert_eq!(p.parse(&input, 0), Err(ParseError::UnexpectedCharacter));
}

#[test]
fn map_projects_the_pair() {
    let input = chars_of("ab");
    let p = kombi::sequence(kombi::character('a'), kombi::character('b')).map(ProjLeft);
    assert_eq!(p.parse(&input, 0), Ok(('a', 2)));
    let q = kombi::sequence(kombi::character('a'), kombi::character('b')).map(ProjRight);
    assert_eq!(q.parse(&input, 0), Ok(('b', 2)));
}

#[test]
fn left_and_right_discard_one_side() {
    let input = chars_of("ab");
    let p = kombi::left(kombi::character('a'), kombi::character('b'));
    assert_eq!(p.parse(&input, 0), Ok(('a', 2)));
    let q = kombi::right(kombi::character('a'), kombi::character('b'));
    assert_eq!(q.parse(&input, 0), Ok(('b', 2)));
}

#[test]
fn either_tags_the_branch_that_matched() {
    let input = chars_of("-");
    let p = kombi::either(kombi::character('+'), kombi::character('-'));
    match p.parse(&input, 0) {
        Ok((Either::Right(c), rest)) => {
            assert_eq!(c, '-');
            assert_eq!(rest, 1);
        }
        other => panic!("expected the right branch, got {:?}", other),
    }
}

#[test]
fn either_retries_from_the_original_offset() {
    let input = chars_of("+");
    let p = kombi::either(
        kombi::sequence(kombi::character('+'), kombi::character('+')),
        kombi::character('+'),
    );
    match p.parse(&input, 0) {
        Ok((Either::Right(c), rest)) => {
            assert_eq!(c, '+');
            assert_eq!(rest, 1);
        }
        other => panic!("expected backtracking to the second branch, got {:?}", other),
    }
}

#[test]
fn many_collects_greedily_and_never_fails() {
    let input = chars_of("123x");
    let p = kombi::many(kombi::digit());
    assert_eq!(p.parse(&input, 0), Ok((vec!['1', '2', '3'], 3)));
    let none = chars_of("x");
    assert_eq!(p.parse(&none, 0), Ok((vec![], 0)));
}

#[test]
fn many1_requires_at_least_one_element() {
    let input = chars_of("123x");
    let p = kombi::many1(kombi::digit());
    assert_eq!(p.parse(&input, 0), Ok((vec!['1', '2', '3'], 3)));
    let none = chars_of("x");
    assert_eq!(p.parse(&none, 0), Err(ParseError::UnexpectedCharacter));
    let empty = chars_of("");
    assert_eq!(p.parse(&empty, 0), Err(ParseError::UnexpectedEndOfInput));
}

#[test]
fn whitespace_family_matches_spaces() {
    let input = chars_of("  a");
    assert_eq!(kombi::whitespace().parse(&input, 0), Ok((' ', 1)));
    assert_eq!(
        kombi::whitespaces().parse(&input, 0),
        Ok((vec![' ', ' '], 2))
    );
    assert_eq!(
        kombi::whitespaces1().parse(&input, 0),
        Ok((vec![' ', ' '], 2))
    );
    let bare = chars_of("a");
    assert_eq!(kombi::whitespaces().parse(&bare, 0), Ok((vec![], 0)));
    assert_eq!(
        kombi::whitespaces1().parse(&bare, 0),
        Err(ParseError::UnexpectedCharacter)
    );
}

#[test]
fn lazy_defers_construction_to_parse_time() {
    let input = chars_of("ok");
    let p = kombi::lazy(kombi::Ready { parser: kombi::AnyCharP });
    assert_eq!(p.parse(&input, 0), Ok(('o', 1)));
    assert_eq!(p.parse(&input, 1), Ok(('k', 2)));
}

#[test]
fn repetition_of_an_empty_success_stays_total() {
    // A child that succeeds without consuming contributes once and the
    // repetition stops rather than looping forever.
    let input = chars_of("a");
    let p = kombi::many(kombi::whitespaces());
    let empty_run: Vec<char> = vec![];
    assert_eq!(p.parse(&input, 0), Ok((vec![empty_run], 0)));
}

#[test]
fn parser_new_packages_a_strategy() {
    let input = chars_of("7");
    let p = kombi::Parser::new(kombi::AnyCharP);
    assert_eq!(p.parse(&input, 0), Ok(('7', 1)));
}

#[test]
fn p_char_matches_one_literal_character() {
    let input = chars_of("x y");
    assert_eq!(parsec::p_char('x').run(&input, 0), Ok(('x', 1)));
    assert_eq!(
        parsec::p_char('y').run(&input, 0),
        Err(ParseError::UnexpectedCharacter)
    );
    assert_eq!(
        parsec::p_char('x').run(&input, 3),
        Err(ParseError::UnexpectedEndOfInput)
    );
}

#[test]
fn choice_takes_the_first_branch_that_matches() {
    let input = chars_of("-");
    let p = parsec::choice(parsec::p_char('+'), parsec::p_char('-'));
    match p.run(&input, 0) {
        Ok((parsec::Either::Right(c), rest)) => {
            assert_eq!(c, '-');
            assert_eq!(rest, 1);
        }
        other => panic!("expected the right branch, got {:?}", other),
    }
}

#[test]
fn seq_runs_both_in_order() {
    let input = chars_of("ab");
    let p = parsec::seq(parsec::p_char('a'), parsec::p_char('b'));
    assert_eq!(p.run(&input, 0), Ok((('a', 'b'), 2)));
}

#[test]
fn parsec_map_transforms_the_result() {
    let input = chars_of("ab");
    let p = parsec::map(
        ProjRight,
        parsec::seq(parsec::p_char('a'), parsec::p_char('b')),
    );
    assert_eq!(p.run(&input, 0), Ok(('b', 2)));
}

#[test]
fn parsec_many_collects_until_failure() {
    let input = chars_of("++-");
    let p = parsec::many(parsec::p_char('+'));
    assert_eq!(p.run(&input, 0), Ok((vec!['+', '+'], 2)));
}

#[test]
fn p_digit_takes_one_digit() {
    let input = chars_of("42");
    assert_eq!(parsec::p_digit(&input, 0), Ok(('4', 1)));
    let bare = chars_of("x");
    assert_eq!(
        parsec::p_digit(&bare, 0),
        Err(ParseError::UnexpectedCharacter)
    );
}

#[test]
fn p_natural_reads_a_decimal_number() {
    let input = chars_of("123x");
    assert_eq!(parsec::p_natural(&input, 0), Ok((123, 3)));
    let empty = chars_of("");
    assert_eq!(
        parsec::p_natural(&empty, 0),
        Err(ParseError::UnexpectedEndOfInput)
    );
    let bare = chars_of("x1");
    assert_eq!(
        parsec::p_natural(&bare, 0),
        Err(ParseError::UnexpectedCharacter)
    );
    let big = chars_of("99999999999");
    assert_eq!(parsec::p_natural(&big, 0), Err(ParseError::DomainError));
}
