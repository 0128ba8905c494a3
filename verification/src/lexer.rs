//! A standalone hand-rolled tokenizer for the arithmetic alphabet: decimal
//! integers and the four operator symbols, separated by optional whitespace.
//!
//! The scanner works the way a by-hand lexer does: it trims whitespace, then
//! alternately tries to take one operator symbol or one run of digits from
//! the front of the remaining text, collecting tokens until the input is
//! exhausted or neither form matches.  The model [`spec_tokenize_from`]
//! describes exactly which tokens are collected, what text remains, and
//! which message a failure carries.

use vstd::prelude::*;

use crate::parsec::spec_natural;
use crate::parsec::spec_natural_loop;

verus! {

broadcast use vstd::string::to_string_from_display_ensures_for_str;

/// An operator symbol.
#[derive(Debug, Clone, Copy, PartialEq, Eq, Structural)]
pub enum Operator {
    Add,
    Sub,
    Times,
    Div,
}

/// One token of the arithmetic alphabet.
#[derive(Debug, Clone, Copy, PartialEq, Eq, Structural)]
pub enum Token {
    Integer(u32),
    Operator(Operator),
}

/// Whether `c` is one of the whitespace characters the scanner skips.
pub open spec fn is_space_char(c: char) -> bool {
    c == ' ' || c == '\t' || c == '\n' || c == '\r'
}

/// Whether `c` is an operator symbol.
pub open spec fn is_op_char(c: char) -> bool {
    c == '+' || c == '-' || c == '*' || c == '/'
}

/// The operator an operator symbol denotes.
pub open spec fn op_of(c: char) -> Operator {
    if c == '+' {
        Operator::Add
    } else if c == '-' {
        Operator::Sub
    } else if c == '*' {
        Operator::Times
    } else {
        Operator::Div
    }
}

/// `s` with its leading whitespace removed.
pub open spec fn spec_trim_front(s: Seq<char>) -> Seq<char>
    decreases s.len(),
{
    if s.len() > 0 && is_space_char(s[0]) {
        spec_trim_front(s.subrange(1, s.len() as int))
    } else {
        s
    }
}

/// `s` with its trailing whitespace removed.
pub open spec fn spec_trim_back(s: Seq<char>) -> Seq<char>
    decreases s.len(),
{
    if s.len() > 0 && is_space_char(s[s.len() - 1]) {
        spec_trim_back(s.subrange(0, s.len() - 1))
    } else {
        s
    }
}

/// `s` with whitespace removed from both ends.
pub open spec fn spec_trim(s: Seq<char>) -> Seq<char> {
    spec_trim_back(spec_trim_front(s))
}

/// One operator-scanning step on the remaining text: trims, then takes one
/// operator symbol.  On failure the trim has still happened.
pub open spec fn spec_op_step(rem: Seq<char>) -> Result<(Operator, Seq<char>), Seq<char>> {
    let t = spec_trim(rem);
    if t.len() == 0 {
        Err("Found empty input"@)
    } else if is_op_char(t[0]) {
        Ok((op_of(t[0]), t.subrange(1, t.len() as int)))
    } else {
        Err("Cannot find operator symbol"@)
    }
}

/// One integer-scanning step on the remaining text: trims, then takes one
/// run of digits as a decimal `u32`.  No digits, or a value that does not
/// fit, is the same failure; the trim has still happened.
pub open spec fn spec_int_step(rem: Seq<char>) -> Result<(u32, Seq<char>), Seq<char>> {
    let t = spec_trim(rem);
    match spec_natural(t, 0) {
        Ok((v, p)) => Ok((v, t.subrange(p, t.len() as int))),
        Err(_) => Err("Cannot find digits"@),
    }
}

/// What a whole tokenizing run produces: the collected tokens, the text
/// still remaining, and, where the run failed, the failure message.
pub struct LexOutcome {
    pub tokens: Seq<Token>,
    pub remaining: Seq<char>,
    pub ok: bool,
    pub message: Seq<char>,
}

/// The model of [`Lexer::tokenize`] from a given state: repeatedly try an
/// operator step, else an integer step, appending the token each step
/// yields, until the remaining text is empty (success) or a step fails
/// (failure, keeping the tokens collected so far and the trimmed rest).
pub open spec fn spec_tokenize_from(rem: Seq<char>, toks: Seq<Token>) -> LexOutcome
    decreases rem.len(),
{
    match spec_op_step(rem) {
        Ok((op, rem2)) => {
            let toks2 = toks.push(Token::Operator(op));
            if rem2.len() == 0 {
                LexOutcome { tokens: toks2, remaining: rem2, ok: true, message: Seq::empty() }
            } else if rem2.len() < rem.len() {
                spec_tokenize_from(rem2, toks2)
            } else {
                LexOutcome { tokens: toks2, remaining: rem2, ok: true, message: Seq::empty() }
            }
        },
        Err(_) => match spec_int_step(spec_trim(rem)) {
            Ok((v, rem2)) => {
                let toks2 = toks.push(Token::Integer(v));
                if rem2.len() == 0 {
                    LexOutcome { tokens: toks2, remaining: rem2, ok: true, message: Seq::empty() }
                } else if rem2.len() < rem.len() {
                    spec_tokenize_from(rem2, toks2)
                } else {
                    LexOutcome { tokens: toks2, remaining: rem2, ok: true, message: Seq::empty() }
                }
            },
            Err(m) => LexOutcome {
                tokens: toks,
                remaining: spec_trim(spec_trim(rem)),
                ok: false,
                message: m,
            },
        },
    }
}

proof fn lemma_trim_front_le(s: Seq<char>)
    ensures
        spec_trim_front(s).len() <= s.len(),
    decreases s.len(),
{
    if s.len() > 0 && is_space_char(s[0]) {
        lemma_trim_front_le(s.subrange(1, s.len() as int));
    }
}

proof fn lemma_trim_back_le(s: Seq<char>)
    ensures
        spec_trim_back(s).len() <= s.len(),
    decreases s.len(),
{
    if s.len() > 0 && is_space_char(s[s.len() - 1]) {
        lemma_trim_back_le(s.subrange(0, s.len() - 1));
    }
}

proof fn lemma_trim_le(s: Seq<char>)
    ensures
        spec_trim(s).len() <= s.len(),
{
    lemma_trim_front_le(s);
    lemma_trim_back_le(spec_trim_front(s));
}

proof fn lemma_trim_front_index(s: Seq<char>, k: int)
    requires
        0 <= k <= s.len(),
        forall|i: int| 0 <= i < k ==> is_space_char(s[i]),
        k == s.len() || !is_space_char(s[k]),
    ensures
        spec_trim_front(s) == s.subrange(k, s.len() as int),
    decreases k,
{
    if k == 0 {
        assert(s.subrange(0, s.len() as int) =~= s);
    } else {
        let s1 = s.subrange(1, s.len() as int);
        lemma_trim_front_index(s1, k - 1);
        assert(s1.subrange(k - 1, s1.len() as int) =~= s.subrange(k, s.len() as int));
    }
}

proof fn lemma_trim_back_index(s: Seq<char>, k: int)
    requires
        0 <= k <= s.len(),
        forall|i: int| k <= i < s.len() ==> is_space_char(s[i]),
        k == 0 || !is_space_char(s[k - 1]),
    ensures
        spec_trim_back(s) == s.subrange(0, k),
    decreases s.len() - k,
{
    if k == s.len() {
        assert(s.subrange(0, k) =~= s);
    } else {
        let s1 = s.subrange(0, s.len() - 1);
        lemma_trim_back_index(s1, k);
        assert(s1.subrange(0, k) =~= s.subrange(0, k));
    }
}

fn is_space(c: char) -> (b: bool)
    ensures
        b == is_space_char(c),
{
    c == ' ' || c == '\t' || c == '\n' || c == '\r'
}

/// The hand-rolled scanner: the text still to be scanned, and the tokens
/// collected so far.
#[derive(Debug)]
pub struct Lexer {
    remaining: Vec<char>,
    tokens: Vec<Token>,
}

impl Default for Lexer {
    /// The empty scanner: nothing remaining, no tokens.
    fn default() -> (r: Lexer)
        ensures
            r.remaining_view() == Seq::<char>::empty(),
            r.tokens_view() == Seq::<Token>::empty(),
    {
        Lexer { remaining: Vec::new(), tokens: Vec::new() }
    }
}

impl Lexer {
    /// The text still to be scanned.
    pub closed spec fn remaining_view(&self) -> Seq<char> {
        self.remaining@
    }

    /// The tokens collected so far.
    pub closed spec fn tokens_view(&self) -> Seq<Token> {
        self.tokens@
    }

    /// The tokens collected so far.
    pub fn tokens(&self) -> (r: &Vec<Token>)
        ensures
            r@ == self.tokens_view(),
    {
        &self.tokens
    }

    fn skip_whitespace(&mut self)
        ensures
            final(self).remaining_view() == spec_trim(old(self).remaining_view()),
            final(self).tokens_view() == old(self).tokens_view(),
    {
        let ghost rem = self.remaining@;
        let n = self.remaining.len();
        let mut start: usize = 0;
        while start < n && is_space(self.remaining[start])
            invariant
                n == self.remaining@.len(),
                self.remaining@ == rem,
                self.tokens@ == old(self).tokens@,
                0 <= start <= n,
                forall|i: int| 0 <= i < start ==> is_space_char(rem[i]),
            decreases n - start,
        {
            start += 1;
        }
        let mut end: usize = n;
        while end > start && is_space(self.remaining[end - 1])
            invariant
                n == self.remaining@.len(),
                self.remaining@ == rem,
                self.tokens@ == old(self).tokens@,
                start <= end <= n,
                forall|i: int| end <= i < n ==> is_space_char(rem[i]),
            decreases end,
        {
            end -= 1;
        }
        let mut out: Vec<char> = Vec::new();
        let mut i: usize = start;
        while i < end
            invariant
                n == self.remaining@.len(),
                self.remaining@ == rem,
                self.tokens@ == old(self).tokens@,
                start <= i <= end <= n,
                out@ == rem.subrange(start as int, i as int),
            decreases end - i,
        {
            out.push(self.remaining[i]);
            i += 1;
            proof {
                assert(out@ =~= rem.subrange(start as int, i as int));
            }
        }
        proof {
            lemma_trim_front_index(rem, start as int);
            let s1 = rem.subrange(start as int, n as int);
            lemma_trim_back_index(s1, end - start);
            assert(s1.subrange(0, end - start) =~= rem.subrange(start as int, end as int));
            assert(out@ =~= rem.subrange(start as int, end as int));
        }
        self.remaining = out;
    }

    fn tokenize_operator(&mut self) -> (r: Result<(), String>)
        ensures
            ({
                let before = old(self).remaining_view();
                let toks = old(self).tokens_view();
                match r {
                    Ok(_) => spec_op_step(before) matches Ok((op, rem2)) && final(self).remaining_view() == rem2 && final(self).tokens_view() == toks.push(
                        Token::Operator(op),
                    ),
                    Err(e) => spec_op_step(before) matches Err(m) && e@ == m && final(self).remaining_view() == spec_trim(before) && final(self).tokens_view() == toks,
                }
            }),
    {
        self.skip_whitespace();
        if self.remaining.len() == 0 {
            Err("Found empty input".to_string())
        } else {
            let c = self.remaining[0];
            if c == '+' || c == '-' || c == '*' || c == '/' {
                let op = if c == '+' {
                    Operator::Add
                } else if c == '-' {
                    Operator::Sub
                } else if c == '*' {
                    Operator::Times
                } else {
                    Operator::Div
                };
                self.tokens.push(Token::Operator(op));
                let ghost t = self.remaining@;
                self.remaining.remove(0);
                proof {
                    assert(self.remaining@ =~= t.subrange(1, t.len() as int));
                }
                Ok(())
            } else {
                Err("Cannot find operator symbol".to_string())
            }
        }
    }

    fn tokenize_integer(&mut self) -> (r: Result<(), String>)
        ensures
            ({
                let before = old(self).remaining_view();
                let toks = old(self).tokens_view();
                match r {
                    Ok(_) => spec_int_step(before) matches Ok((v, rem2)) && final(self).remaining_view() == rem2 && final(self).tokens_view() == toks.push(
                        Token::Integer(v),
                    ),
                    Err(e) => spec_int_step(before) matches Err(m) && e@ == m && final(self).remaining_view() == spec_trim(before) && final(self).tokens_view() == toks,
                }
            }),
    {
        self.skip_whitespace();
        match crate::parsec::p_natural(&self.remaining, 0) {
            Ok((v, p)) => {
                self.tokens.push(Token::Integer(v));
                let ghost t = self.remaining@;
                let mut rest: Vec<char> = Vec::new();
                let mut i: usize = p;
                while i < self.remaining.len()
                    invariant
                        self.remaining@ == t,
                        p <= i <= t.len(),
                        rest@ == t.subrange(p as int, i as int),
                    decreases t.len() - i,
                {
                    let ch = self.remaining[i];
                    rest.push(ch);
                    i += 1;
                    proof {
                        assert(rest@ =~= t.subrange(p as int, i as int));
                    }
                }
                proof {
                    assert(rest@ =~= t.subrange(p as int, t.len() as int));
                }
                self.remaining = rest;
                Ok(())
            },
            Err(_) => Err("Cannot find digits".to_string()),
        }
    }

    /// Scans the whole of `input`, appending the tokens found to those
    /// already collected.  The outcome — tokens, leftover text, success or
    /// failure message — is exactly the model [`spec_tokenize_from`]'s.
    pub fn tokenize(&mut self, input: &str) -> (r: Result<(), String>)
        ensures
            final(self).tokens_view() == spec_tokenize_from(
                input@,
                old(self).tokens_view(),
            ).tokens,
            final(self).remaining_view() == spec_tokenize_from(
                input@,
                old(self).tokens_view(),
            ).remaining,
            r is Ok <==> spec_tokenize_from(input@, old(self).tokens_view()).ok,
            r matches Err(e) ==> e@ == spec_tokenize_from(input@, old(self).tokens_view()).message,
    {
        self.remaining = crate::chars_of(input);
        let ghost g_out = spec_tokenize_from(input@, old(self).tokens_view());
        let mut done: bool = false;
        let mut result: Result<(), String> = Ok(());
        while !done
            invariant
                !done ==> spec_tokenize_from(self.remaining_view(), self.tokens_view()) == g_out,
                done ==> self.tokens_view() == g_out.tokens && self.remaining_view()
                    == g_out.remaining && (result is Ok <==> g_out.ok) && (result matches Err(e)
                    ==> e@ == g_out.message),
            decreases self.remaining@.len(), (if done { 0int } else { 1int }),
        {
            let ghost rem0 = self.remaining_view();
            let ghost toks0 = self.tokens_view();
            let step: Result<(), String> = match self.tokenize_operator() {
                Ok(_) => Ok(()),
                Err(_) => self.tokenize_integer(),
            };
            proof {
                lemma_trim_le(rem0);
                lemma_trim_le(spec_trim(rem0));
                let out0 = spec_tokenize_from(rem0, toks0);
                match spec_op_step(rem0) {
                    Ok((op, rem2)) => {
                        let toks2 = toks0.push(Token::Operator(op));
                        if rem2.len() == 0 {
                            assert(out0 == (LexOutcome {
                                tokens: toks2,
                                remaining: rem2,
                                ok: true,
                                message: Seq::empty(),
                            }));
                        } else {
                            assert(rem2.len() < rem0.len());
                            assert(out0 == spec_tokenize_from(rem2, toks2));
                        }
                    },
                    Err(_) => {
                        let t2 = spec_trim(spec_trim(rem0));
                        match spec_int_step(spec_trim(rem0)) {
                            Ok((v, rem2)) => {
                                let d = (t2[0] as u32 - 48) as u32;
                                assert(spec_natural_loop(t2, 0, 0) == spec_natural_loop(t2, 1, d));
                                crate::parsec::lemma_natural_loop_advances(t2, 1, d);
                                let toks2 = toks0.push(Token::Integer(v));
                                if rem2.len() == 0 {
                                    assert(out0 == (LexOutcome {
                                        tokens: toks2,
                                        remaining: rem2,
                                        ok: true,
                                        message: Seq::empty(),
                                    }));
                                } else {
                                    assert(rem2.len() < rem0.len());
                                    assert(out0 == spec_tokenize_from(rem2, toks2));
                                }
                            },
                            Err(m) => {
                                assert(out0 == (LexOutcome {
                                    tokens: toks0,
                                    remaining: t2,
                                    ok: false,
                                    message: m,
                                }));
                            },
                        }
                    },
                }
            }
            match step {
                Err(e) => {
                    result = Err(e);
                    done = true;
                },
                Ok(_) => {
                    if self.remaining.len() == 0 {
                        result = Ok(());
                        done = true;
                    }
                },
            }
        }
        result
    }
}

} // verus!
